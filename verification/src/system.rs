//! Reading the listening sockets out of `lsof` and `ss` output, and the
//! outcome of signalling a process.
use std::collections::{HashMap, HashSet};
use vstd::prelude::*;

use crate::order::{
    int_order, is_stable_sort, lemma_stable_sort_same_elements, sorted_by, stable_permutation,
};
use crate::port_info::{is_fresh_entry, PortEntry};
use crate::text::{
    chars_of, contains, find_char, find_from, find_sub, first_index, is_digit, last_index,
    lemma_last_index, lemma_replace_all_leaves_none,
    lemma_first_index, lines, parse_unsigned, parse_unsigned_in, pieces, ranges_within,
    replace_all, replace_in, rfind_char, split_lines, split_words, string_of, words,
};

verus! {

broadcast use vstd::std_specs::hash::group_hash_axioms;

/// What sending a signal to a process came to.
#[derive(Debug, Clone, Copy, PartialEq, Eq, Structural)]
pub enum KillResult {
    Success,
    PermissionDenied,
    ProcessNotFound,
}

/// The error number `EPERM` ("operation not permitted"), the same on Linux
/// and macOS.
pub const EPERM: i32 = 1;
/// The error number `ESRCH` ("no such process"), the same on Linux and macOS.
pub const ESRCH: i32 = 3;

/// What the outcome of sending a signal is, given the error number the
/// system call failed with (none when it succeeded): success, permission
/// denied for `EPERM`, process not found for `ESRCH`, and none for any other
/// error, which the caller reports as a failure.
pub fn kill_outcome(errno: Option<i32>) -> (r: Option<KillResult>)
    ensures
        r == match errno {
            None => Some(KillResult::Success),
            Some(e) => if e == EPERM {
                Some(KillResult::PermissionDenied)
            } else if e == ESRCH {
                Some(KillResult::ProcessNotFound)
            } else {
                None
            },
        },
{
    match errno {
        None => Some(KillResult::Success),
        Some(e) => if e == EPERM {
            Some(KillResult::PermissionDenied)
        } else if e == ESRCH {
            Some(KillResult::ProcessNotFound)
        } else {
            None
        },
    }
}

/// The signal a kill sends: a normal termination request or a force kill.
#[derive(Debug, Clone, Copy, PartialEq, Eq, Structural)]
pub enum KillSignal {
    /// `SIGTERM`
    Terminate,
    /// `SIGKILL`
    Kill,
}

/// A `host:port` field split at its last `:` into address and port; none
/// when there is no `:` or nothing after it.
pub open spec fn addr_port(f: Seq<char>) -> Option<(Seq<char>, Seq<char>)> {
    match last_index(f, ':') {
        None => None,
        Some(k) => if k + 1 >= f.len() {
            None
        } else {
            Some((f.take(k as int), f.skip((k + 1) as int)))
        },
    }
}

/// A split field is its address, a `:` and its port again; the port is
/// not empty and holds no `:`.
pub proof fn lemma_addr_port_rejoins(f: Seq<char>)
    requires
        addr_port(f) is Some,
    ensures
        ({
            let (a, p) = addr_port(f)->0;
            &&& a + seq![':'] + p == f
            &&& p.len() > 0
            &&& !p.contains(':')
        }),
{
    lemma_last_index(f, ':');
    let k = last_index(f, ':')->0;
    let (a, p) = addr_port(f)->0;
    assert(a + seq![':'] + p =~= f);
    assert forall|j: int| 0 <= j < p.len() implies p[j] != ':' by {
        assert(p[j] == f[k + 1 + j]);
    }
}

/// Splits a `host:port` (or bracketed IPv6 `[host]:port`) field into its
/// address and port: the port is what follows the last `:`, the address
/// everything before it, brackets included.
pub fn split_addr_port(field: &str) -> (r: Option<(&str, &str)>)
    ensures
        match r {
            Some((a, p)) => addr_port(field@) == Some((a@, p@)),
            None => addr_port(field@) is None,
        },
{
    let v = chars_of(field);
    let n = v.len();
    match rfind_char(&v, 0, n, ':') {
        None => {
            assert(v@.subrange(0, n as int) =~= v@);
            None
        },
        Some(k) => {
            assert(v@.subrange(0, n as int) =~= v@);
            if k + 1 >= n {
                None
            } else {
                let address = field.substring_char(0, k);
                let port = field.substring_char(k + 1, n);
                assert(field@.subrange(0, k as int) =~= field@.take(k as int));
                assert(field@.subrange(k + 1, n as int) =~= field@.skip(k + 1));
                Some((address, port))
            }
        },
    }
}

/// The `host:port` split of `v[from..to]`: the position of the last `:`.
fn addr_port_in(v: &[char], from: usize, to: usize) -> (r: Option<usize>)
    requires
        from <= to <= v@.len(),
    ensures
        match r {
            Some(k) => from <= k < to && addr_port(v@.subrange(from as int, to as int)) == Some(
                (v@.subrange(from as int, k as int), v@.subrange(k + 1, to as int)),
            ),
            None => addr_port(v@.subrange(from as int, to as int)) is None,
        },
{
    let ghost f = v@.subrange(from as int, to as int);
    match rfind_char(v, from, to, ':') {
        None => None,
        Some(k) => {
            if from + k + 1 >= to {
                None
            } else {
                assert(f.take(k as int) =~= v@.subrange(from as int, from + k));
                assert(f.skip(k + 1) =~= v@.subrange(from + k + 1, to as int));
                Some(from + k)
            }
        },
    }
}

/// A socket read from one line of output: port, pid, command and bind
/// address.
pub type Row = (u16, u32, Seq<char>, Seq<char>);

/// The socket an `lsof -iTCP -sTCP:LISTEN -P -n +c 0` line lists: at least
/// ten words; the command is the first (with `\x20` standing for a
/// space), the pid the second, the `host:port` name the second to last.
pub open spec fn lsof_row(line: Seq<char>) -> Option<Row> {
    let parts = words(line);
    if parts.len() < 10 {
        None
    } else {
        match parse_unsigned(parts[1], u32::MAX as nat) {
            None => None,
            Some(pid) => match addr_port(parts[parts.len() - 2]) {
                None => None,
                Some((addr, port_text)) => match parse_unsigned(port_text, 65535) {
                    None => None,
                    Some(port) => Some(
                        (port as u16, pid as u32, replace_all(parts[0], "\\x20"@, " "@), addr),
                    ),
                },
            },
        }
    }
}

/// The command of a parsed `lsof` line holds no `\x20` escape: every one
/// in the first word has become a space, and a first word without escapes
/// is the command as it stands.
pub proof fn lemma_lsof_command_unescaped(line: Seq<char>)
    requires
        lsof_row(line) is Some,
    ensures
        !contains(lsof_row(line).unwrap().2, "\\x20"@),
        !contains(words(line)[0], "\\x20"@) ==> lsof_row(line).unwrap().2 == words(line)[0],
{
    reveal_strlit("\\x20");
    reveal_strlit(" ");
    let pat = "\\x20"@;
    let rep = " "@;
    assert(!pat.contains(rep[0])) by {
        if pat.contains(rep[0]) {
            let i = choose|i: int| 0 <= i < pat.len() && pat[i] == rep[0];
        }
    }
    lemma_replace_all_leaves_none(words(line)[0], pat, rep);
}

/// The row of the line `v[from..to]` of `lsof` output.
fn lsof_row_in(v: &[char], from: usize, to: usize) -> (r: Option<(u16, u32, String, String)>)
    requires
        from <= to <= v@.len(),
    ensures
        match r {
            Some((port, pid, command, addr)) => lsof_row(v@.subrange(from as int, to as int))
                == Some((port, pid, command@, addr@)),
            None => lsof_row(v@.subrange(from as int, to as int)) is None,
        },
{
    let ws = split_words(v, from, to);
    let ghost parts = words(v@.subrange(from as int, to as int));
    let count = ws.len();
    if count < 10 {
        return None;
    }
    assert(parts.len() == count);
    let (c0, c1) = ws[0];
    let (p0, p1) = ws[1];
    let (n0, n1) = ws[count - 2];
    assert(parts[0] == v@.subrange(c0 as int, c1 as int));
    assert(parts[1] == v@.subrange(p0 as int, p1 as int));
    assert(parts[count - 2] == v@.subrange(n0 as int, n1 as int));
    let pid = match parse_unsigned_in(v, p0, p1, 4294967295) {
        Some(pid) => pid,
        None => {
            return None;
        },
    };
    let k = match addr_port_in(v, n0, n1) {
        Some(k) => k,
        None => {
            return None;
        },
    };
    let port = match parse_unsigned_in(v, k + 1, n1, 65535) {
        Some(port) => port,
        None => {
            return None;
        },
    };
    let pattern = chars_of("\\x20");
    let space = chars_of(" ");
    proof {
        reveal_strlit("\\x20");
    }
    let command = replace_in(v, c0, c1, &pattern, &space);
    let addr = string_of(v, n0, k);
    Some((port as u16, pid as u32, command, addr))
}

/// Parses one line of `lsof` output into a fresh entry.
pub fn parse_lsof_line(line: &str, services: &HashMap<u16, String>) -> (r: Option<PortEntry>)
    ensures
        match r {
            Some(e) => lsof_row(line@) matches Some((port, pid, command, addr)) && is_fresh_entry(
                e,
                port,
                pid,
                command,
                addr,
                services@,
            ),
            None => lsof_row(line@) is None,
        },
{
    let v = chars_of(line);
    assert(v@.subrange(0, v@.len() as int) =~= v@);
    match lsof_row_in(&v, 0, v.len()) {
        Some((port, pid, command, addr)) => Some(PortEntry::new(port, pid, command, addr, services)),
        None => None,
    }
}

/// The `(command, pid)` of an `ss -p` process field such as
/// `users:(("sshd",pid=123,fd=3))`: the command between `(("` and the next
/// `"`, the pid in the digits after `pid=` (which a non-digit must end).
pub open spec fn ss_process(f: Seq<char>) -> Option<(Seq<char>, u32)> {
    match find_from(f, "((\""@, 0) {
        None => None,
        Some(i) => {
            let rest = f.skip((i + 3) as int);
            let q = first_index(rest, |c: char| c == '"');
            if q >= rest.len() {
                None
            } else {
                match find_from(f, "pid="@, 0) {
                    None => None,
                    Some(j) => {
                        let digits = f.skip((j + 4) as int);
                        let d = first_index(digits, |c: char| !is_digit(c));
                        if d >= digits.len() {
                            None
                        } else {
                            match parse_unsigned(digits.take(d as int), u32::MAX as nat) {
                                Some(pid) => Some((rest.take(q as int), pid as u32)),
                                None => None,
                            }
                        }
                    },
                }
            }
        },
    }
}

/// Position (at or after `from`) of the first non-digit in `v[from..to]`,
/// or `to`.
fn find_non_digit(v: &[char], from: usize, to: usize) -> (k: usize)
    requires
        from <= to <= v@.len(),
    ensures
        from <= k <= to,
        k - from == first_index(v@.subrange(from as int, to as int), |c: char| !is_digit(c)),
{
    let mut k = from;
    while k < to && '0' <= v[k] && v[k] <= '9'
        invariant
            from <= k <= to <= v@.len(),
            forall|j: int| from <= j < k ==> is_digit(v@[j]),
        decreases to - k,
    {
        k += 1;
    }
    proof {
        lemma_first_index(v@.subrange(from as int, to as int), |c: char| !is_digit(c), k - from);
    }
    k
}

/// The process field of `v[from..to]`.
fn ss_process_in(v: &[char], from: usize, to: usize) -> (r: Option<(String, u32)>)
    requires
        from <= to <= v@.len(),
    ensures
        match r {
            Some((command, pid)) => ss_process(v@.subrange(from as int, to as int)) == Some(
                (command@, pid),
            ),
            None => ss_process(v@.subrange(from as int, to as int)) is None,
        },
{
    let ghost f = v@.subrange(from as int, to as int);
    let field: Vec<char> = slice_range(v, from, to);
    let open_pattern = chars_of("((\"");
    let pid_pattern = chars_of("pid=");
    proof {
        reveal_strlit("((\"");
        reveal_strlit("pid=");
        crate::text::lemma_find_from(f, open_pattern@, 0);
        crate::text::lemma_find_from(f, pid_pattern@, 0);
    }
    let i = match find_sub(&field, &open_pattern, 0) {
        Some(i) => i,
        None => {
            return None;
        },
    };
    let cs = i + 3;
    let q = find_char(&field, cs, field.len(), '"');
    assert(field@.subrange(cs as int, field@.len() as int) =~= f.skip(cs as int));
    if q >= field.len() {
        return None;
    }
    let j = match find_sub(&field, &pid_pattern, 0) {
        Some(j) => j,
        None => {
            return None;
        },
    };
    let ps = j + 4;
    let d = find_non_digit(&field, ps, field.len());
    assert(field@.subrange(ps as int, field@.len() as int) =~= f.skip(ps as int));
    if d >= field.len() {
        return None;
    }
    assert(f.skip(ps as int).take(d - ps) =~= field@.subrange(ps as int, d as int));
    assert(f.skip(cs as int).take(q - cs) =~= field@.subrange(cs as int, q as int));
    let pid = match parse_unsigned_in(&field, ps, d, 4294967295) {
        Some(pid) => pid,
        None => {
            return None;
        },
    };
    let command = string_of(&field, cs, q);
    Some((command, pid as u32))
}

/// A copy of `v[from..to]`.
fn slice_range(v: &[char], from: usize, to: usize) -> (r: Vec<char>)
    requires
        from <= to <= v@.len(),
    ensures
        r@ == v@.subrange(from as int, to as int),
{
    let mut r: Vec<char> = Vec::new();
    let mut i = from;
    while i < to
        invariant
            from <= i <= to <= v@.len(),
            r@ == v@.subrange(from as int, i as int),
        decreases to - i,
    {
        r.push(v[i]);
        assert(r@ =~= v@.subrange(from as int, i + 1));
        i += 1;
    }
    r
}

/// Parses the process field of an `ss -p` line into `(command, pid)`.
pub fn parse_ss_process_field(field: &str) -> (r: Option<(String, u32)>)
    ensures
        match r {
            Some((command, pid)) => ss_process(field@) == Some((command@, pid)),
            None => ss_process(field@) is None,
        },
{
    let v = chars_of(field);
    assert(v@.subrange(0, v@.len() as int) =~= v@);
    ss_process_in(&v, 0, v.len())
}

/// The socket an `ss -tlnp` line lists: at least five words; the fourth is
/// the local `host:port`, the sixth (or nothing) the process field.
pub open spec fn ss_row(line: Seq<char>) -> Option<Row> {
    let parts = words(line);
    if parts.len() < 5 {
        None
    } else {
        match addr_port(parts[3]) {
            None => None,
            Some((addr, port_text)) => match parse_unsigned(port_text, 65535) {
                None => None,
                Some(port) => {
                    let process = if parts.len() > 5 {
                        parts[5]
                    } else {
                        Seq::empty()
                    };
                    match ss_process(process) {
                        None => None,
                        Some((command, pid)) => Some((port as u16, pid, command, addr)),
                    }
                },
            },
        }
    }
}

/// The row of the line `v[from..to]` of `ss` output.
fn ss_row_in(v: &[char], from: usize, to: usize) -> (r: Option<(u16, u32, String, String)>)
    requires
        from <= to <= v@.len(),
    ensures
        match r {
            Some((port, pid, command, addr)) => ss_row(v@.subrange(from as int, to as int))
                == Some((port, pid, command@, addr@)),
            None => ss_row(v@.subrange(from as int, to as int)) is None,
        },
{
    let ws = split_words(v, from, to);
    let ghost parts = words(v@.subrange(from as int, to as int));
    let count = ws.len();
    if count < 5 {
        return None;
    }
    let (l0, l1) = ws[3];
    assert(parts[3] == v@.subrange(l0 as int, l1 as int));
    let k = match addr_port_in(v, l0, l1) {
        Some(k) => k,
        None => {
            return None;
        },
    };
    let port = match parse_unsigned_in(v, k + 1, l1, 65535) {
        Some(port) => port,
        None => {
            return None;
        },
    };
    let (f0, f1) = if count > 5 {
        ws[5]
    } else {
        (0, 0)
    };
    if count > 5 {
        assert(parts[5] == v@.subrange(f0 as int, f1 as int));
    } else {
        assert(v@.subrange(0, 0) =~= Seq::<char>::empty());
    }
    let (command, pid) = match ss_process_in(v, f0, f1) {
        Some(p) => p,
        None => {
            return None;
        },
    };
    let addr = string_of(v, l0, k);
    Some((port as u16, pid, command, addr))
}

/// Parses one line of `ss` output into a fresh entry.
pub fn parse_ss_line(line: &str, services: &HashMap<u16, String>) -> (r: Option<PortEntry>)
    ensures
        match r {
            Some(e) => ss_row(line@) matches Some((port, pid, command, addr)) && is_fresh_entry(
                e,
                port,
                pid,
                command,
                addr,
                services@,
            ),
            None => ss_row(line@) is None,
        },
{
    let v = chars_of(line);
    assert(v@.subrange(0, v@.len() as int) =~= v@);
    match ss_row_in(&v, 0, v.len()) {
        Some((port, pid, command, addr)) => Some(PortEntry::new(port, pid, command, addr, services)),
        None => None,
    }
}

/// The lines after the header line.
pub open spec fn data_lines(s: Seq<char>) -> Seq<Seq<char>> {
    let ls = lines(s);
    if ls.len() == 0 {
        ls
    } else {
        ls.drop_first()
    }
}

/// The row a data line gives, for `lsof` output or for `ss` output.
pub open spec fn row_of(line: Seq<char>, from_lsof: bool) -> Option<Row> {
    if from_lsof {
        lsof_row(line)
    } else {
        ss_row(line)
    }
}

/// The rows with the same port and pid as an earlier row left out.
pub open spec fn first_occurrences(rows: Seq<Row>) -> Seq<Row>
    decreases rows.len(),
{
    if rows.len() == 0 {
        rows
    } else {
        let kept = first_occurrences(rows.drop_last());
        let r = rows.last();
        if exists|i: int| 0 <= i < kept.len() && (#[trigger] kept[i]).0 == r.0 && kept[i].1 == r.1 {
            kept
        } else {
            kept.push(r)
        }
    }
}

/// The sockets a scan's output lists: the rows of its data lines, each
/// `(port, pid)` once (its first row).
pub open spec fn listed_rows(stdout: Seq<char>, from_lsof: bool) -> Seq<Row> {
    first_occurrences(line_rows(stdout, from_lsof))
}

/// The rows of a scan's data lines, in order, repeats included.
pub open spec fn line_rows(stdout: Seq<char>, from_lsof: bool) -> Seq<Row> {
    data_lines(stdout).filter_map(|l: Seq<char>| row_of(l, from_lsof))
}

/// `first_occurrences` keeps no port and pid twice, keeps only rows it was
/// given, and keeps a row for every port and pid it was given.
proof fn lemma_first_occurrences(rows: Seq<Row>)
    ensures
        ({
            let kept = first_occurrences(rows);
            &&& forall|i: int, j: int|
                0 <= i < j < kept.len() ==> (#[trigger] kept[i]).0 != (#[trigger] kept[j]).0
                    || kept[i].1 != kept[j].1
            &&& forall|r: Row| kept.contains(r) ==> rows.contains(r)
            &&& forall|r: Row|
                rows.contains(r) ==> exists|i: int|
                    0 <= i < kept.len() && (#[trigger] kept[i]).0 == r.0 && kept[i].1 == r.1
        }),
    decreases rows.len(),
{
    if rows.len() > 0 {
        let prev = rows.drop_last();
        lemma_first_occurrences(prev);
        let before = first_occurrences(prev);
        let kept = first_occurrences(rows);
        let r = rows.last();
        assert(rows == prev.push(r));
        assert forall|x: Row| prev.contains(x) implies rows.contains(x) by {
            let t = choose|t: int| 0 <= t < prev.len() && prev[t] == x;
            assert(rows[t] == x);
        }
        if exists|i: int| 0 <= i < before.len() && (#[trigger] before[i]).0 == r.0 && before[i].1 == r.1 {
            assert(kept == before);
            assert forall|x: Row| rows.contains(x) implies exists|i: int|
                0 <= i < kept.len() && (#[trigger] kept[i]).0 == x.0 && kept[i].1 == x.1 by {
                if x != r {
                    let t = choose|t: int| 0 <= t < rows.len() && rows[t] == x;
                    assert(t < prev.len());
                    assert(prev[t] == x);
                    assert(prev.contains(x));
                }
            }
        } else {
            assert(kept == before.push(r));
            assert forall|i: int, j: int|
                0 <= i < j < kept.len() implies (#[trigger] kept[i]).0 != (#[trigger] kept[j]).0
                    || kept[i].1 != kept[j].1 by {
                if j < before.len() {
                    assert(kept[i] == before[i] && kept[j] == before[j]);
                } else {
                    assert(kept[i] == before[i]);
                }
            }
            assert forall|x: Row| kept.contains(x) implies rows.contains(x) by {
                let t = choose|t: int| 0 <= t < kept.len() && kept[t] == x;
                if t < before.len() {
                    assert(before[t] == x);
                    assert(before.contains(x));
                } else {
                    assert(rows[rows.len() - 1] == x);
                }
            }
            assert forall|x: Row| rows.contains(x) implies exists|i: int|
                0 <= i < kept.len() && (#[trigger] kept[i]).0 == x.0 && kept[i].1 == x.1 by {
                if x == r {
                    assert(kept[before.len() as int] == r);
                } else {
                    let t = choose|t: int| 0 <= t < rows.len() && rows[t] == x;
                    assert(t < prev.len());
                    assert(prev[t] == x);
                    assert(prev.contains(x));
                    let i = choose|i: int|
                        0 <= i < before.len() && (#[trigger] before[i]).0 == x.0 && before[i].1 == x.1;
                    assert(kept[i] == before[i]);
                }
            }
        }
    }
}

/// What a scan lists: each port and process once, ordered by port; a row
/// for every port and process that a listening line names, and no row
/// that no line gives.
pub proof fn lemma_scan_lists_each_socket_once(stdout: Seq<char>, from_lsof: bool, rows: Seq<Row>)
    requires
        is_stable_sort(listed_rows(stdout, from_lsof), rows, by_port()),
    ensures
        forall|i: int, j: int|
            0 <= i < j < rows.len() ==> (#[trigger] rows[i]).0 != (#[trigger] rows[j]).0
                || rows[i].1 != rows[j].1,
        forall|i: int, j: int| 0 <= i < j < rows.len() ==> (#[trigger] rows[i]).0 <= (#[trigger] rows[j]).0,
        forall|r: Row|
            #[trigger] line_rows(stdout, from_lsof).contains(r) ==> exists|i: int|
                0 <= i < rows.len() && (#[trigger] rows[i]).0 == r.0 && rows[i].1 == r.1,
        forall|r: Row| #[trigger] rows.contains(r) ==> line_rows(stdout, from_lsof).contains(r),
{
    let all = line_rows(stdout, from_lsof);
    let input = listed_rows(stdout, from_lsof);
    lemma_first_occurrences(all);
    lemma_stable_sort_same_elements(input, rows, by_port());
    let perm = choose|perm: Seq<int>| stable_permutation(input, rows, perm, by_port());
    assert forall|i: int, j: int| 0 <= i < j < rows.len() implies (#[trigger] rows[i]).0 != (#[trigger] rows[j]).0
        || rows[i].1 != rows[j].1 by {
        assert(perm[i] != perm[j]);
        if perm[i] < perm[j] {
            assert(input[perm[i]].0 != input[perm[j]].0 || input[perm[i]].1 != input[perm[j]].1);
        } else {
            assert(input[perm[j]].0 != input[perm[i]].0 || input[perm[j]].1 != input[perm[i]].1);
        }
    }
    assert forall|i: int, j: int| 0 <= i < j < rows.len() implies (#[trigger] rows[i]).0 <= (#[trigger] rows[j]).0 by {
        assert(by_port()(rows[i], rows[j]) <= 0);
    }
    assert forall|r: Row| all.contains(r) implies exists|i: int|
        0 <= i < rows.len() && (#[trigger] rows[i]).0 == r.0 && rows[i].1 == r.1 by {
        let k = choose|k: int| 0 <= k < input.len() && (#[trigger] input[k]).0 == r.0 && input[k].1 == r.1;
        assert(input.contains(input[k]));
        assert(rows.contains(input[k]));
        let i = choose|i: int| 0 <= i < rows.len() && rows[i] == input[k];
        assert(rows[i].0 == r.0 && rows[i].1 == r.1);
    }
}

/// Rows ordered by port.
pub open spec fn by_port() -> spec_fn(Row, Row) -> int {
    |a: Row, b: Row| int_order(a.0 as int, b.0 as int)
}

/// The row an entry was built from.
pub open spec fn entry_row(e: PortEntry) -> Row {
    (e.port, e.pid, e.command@, e.bind_addr@)
}

pub open spec fn entry_rows(es: Seq<PortEntry>) -> Seq<Row> {
    es.map_values(|e: PortEntry| entry_row(e))
}

/// The number a port and pid are remembered by: the port above the low 32
/// bits, the pid in them.
pub open spec fn socket_key(port: u16, pid: u32) -> int {
    port as int * 0x1_0000_0000 + pid as int
}

fn socket_key_of(port: u16, pid: u32) -> (k: u64)
    ensures
        k == socket_key(port, pid),
{
    port as u64 * 0x1_0000_0000 + pid as u64
}

/// The keys of the ports and pids of `rows`.
pub open spec fn seen_keys(rows: Seq<Row>) -> Set<u64> {
    Set::new(|k: u64| exists|j: int| 0 <= j < rows.len() && socket_key(rows[j].0, rows[j].1) == k)
}

/// The key of a port and pid is among `seen_keys(rows)` exactly when some
/// row has that port and pid.
proof fn lemma_seen_keys(rows: Seq<Row>, port: u16, pid: u32, k: u64)
    requires
        k == socket_key(port, pid),
    ensures
        seen_keys(rows).contains(k) <==> exists|j: int|
            0 <= j < rows.len() && (#[trigger] rows[j]).0 == port && rows[j].1 == pid,
{
    if seen_keys(rows).contains(k) {
        let j = choose|j: int| 0 <= j < rows.len() && socket_key(rows[j].0, rows[j].1) == k;
        assert(rows[j].0 == port && rows[j].1 == pid);
    }
    if exists|j: int| 0 <= j < rows.len() && (#[trigger] rows[j]).0 == port && rows[j].1 == pid {
        let j = choose|j: int| 0 <= j < rows.len() && (#[trigger] rows[j]).0 == port && rows[j].1 == pid;
        assert(socket_key(rows[j].0, rows[j].1) == k);
    }
}

/// Adding a row adds its key.
proof fn lemma_seen_keys_push(rows: Seq<Row>, row: Row, k: u64)
    requires
        k == socket_key(row.0, row.1),
    ensures
        seen_keys(rows.push(row)) == seen_keys(rows).insert(k),
{
    let r2 = rows.push(row);
    assert forall|x: u64| seen_keys(r2).contains(x) <==> seen_keys(rows).insert(k).contains(x) by {
        if seen_keys(r2).contains(x) && x != k {
            let j = choose|j: int| 0 <= j < r2.len() && socket_key(r2[j].0, r2[j].1) == x;
            assert(j < rows.len());
            assert(rows[j] == r2[j]);
        }
        if seen_keys(rows).contains(x) {
            let j = choose|j: int| 0 <= j < rows.len() && socket_key(rows[j].0, rows[j].1) == x;
            assert(r2[j] == rows[j]);
        }
        if x == k {
            assert(r2[rows.len() as int] == row);
        }
    }
    assert(seen_keys(r2) =~= seen_keys(rows).insert(k));
}

fn row_in(v: &[char], from: usize, to: usize, from_lsof: bool) -> (r: Option<(u16, u32, String, String)>)
    requires
        from <= to <= v@.len(),
    ensures
        match r {
            Some((port, pid, command, addr)) => row_of(v@.subrange(from as int, to as int), from_lsof)
                == Some((port, pid, command@, addr@)),
            None => row_of(v@.subrange(from as int, to as int), from_lsof) is None,
        },
{
    if from_lsof {
        lsof_row_in(v, from, to)
    } else {
        ss_row_in(v, from, to)
    }
}

/// The entries a scan's output lists: each `(port, pid)` once, stably
/// sorted by port.
#[verifier::rlimit(40)]
fn entries_from_output(stdout: &str, services: &HashMap<u16, String>, from_lsof: bool) -> (r: Vec<
    PortEntry,
>)
    ensures
        is_stable_sort(listed_rows(stdout@, from_lsof), entry_rows(r@), by_port()),
        forall|t: int|
            0 <= t < r@.len() ==> is_fresh_entry(
                #[trigger] r@[t],
                r@[t].port,
                r@[t].pid,
                r@[t].command@,
                r@[t].bind_addr@,
                services@,
            ),
{
    let v = chars_of(stdout);
    let ranges = split_lines(&v);
    let ghost ls = lines(v@);
    let ghost dl = data_lines(v@);
    let ghost f = |l: Seq<char>| row_of(l, from_lsof);
    let mut entries: Vec<PortEntry> = Vec::new();
    let mut seen: HashSet<u64> = HashSet::new();
    let ghost mut perm: Seq<int> = Seq::empty();
    let ghost ord = by_port();
    if ranges.len() == 0 {
        assert(dl.len() == 0);
        assert(dl.filter_map(f) =~= Seq::<Row>::empty());
        assert(entry_rows(entries@) =~= Seq::<Row>::empty());
        assert(stable_permutation(listed_rows(stdout@, from_lsof), entry_rows(entries@), perm, ord));
        return entries;
    }
    let mut i: usize = 1;
    assert(dl.take(0) =~= Seq::<Seq<char>>::empty());
    assert(dl.take(0).filter_map(f) =~= Seq::<Row>::empty());
    assert(entry_rows(entries@) =~= Seq::<Row>::empty());
    assert(seen@ =~= seen_keys(first_occurrences(dl.take(0).filter_map(f))));
    while i < ranges.len()
        invariant
            v@ == stdout@,
            ls == lines(v@),
            dl == data_lines(v@),
            ls.len() == ranges@.len(),
            ls.len() > 0,
            dl == ls.drop_first(),
            pieces(v@, ranges@) == ls,
            ranges_within(v@, ranges@),
            1 <= i <= ranges@.len(),
            f == (|l: Seq<char>| row_of(l, from_lsof)),
            ord == by_port(),
            seen@ == seen_keys(first_occurrences(dl.take(i - 1).filter_map(f))),
            stable_permutation(
                first_occurrences(dl.take(i - 1).filter_map(f)),
                entry_rows(entries@),
                perm,
                ord,
            ),
            sorted_by(entry_rows(entries@), ord),
            forall|t: int|
                0 <= t < entries@.len() ==> is_fresh_entry(
                    #[trigger] entries@[t],
                    entries@[t].port,
                    entries@[t].pid,
                    entries@[t].command@,
                    entries@[t].bind_addr@,
                    services@,
                ),
        decreases ranges@.len() - i,
    {
        let (a, b) = ranges[i];
        let ghost line = v@.subrange(a as int, b as int);
        let ghost rows_before = dl.take(i - 1).filter_map(f);
        let ghost kept = first_occurrences(rows_before);
        assert(dl[i - 1] == line) by {
            assert(ranges_within(v@, ranges@));
            assert(ls[i as int] == pieces(v@, ranges@)[i as int]);
        }
        assert(dl.take(i as int).drop_last() =~= dl.take(i - 1));
        assert(dl.take(i as int).last() == line);
        let ghost rows_after = dl.take(i as int).filter_map(f);
        assert(rows_after == (match f(line) {
            Some(x) => rows_before + seq![x],
            None => rows_before,
        }));
        match row_in(&v, a, b, from_lsof) {
            None => {
                assert(rows_after =~= rows_before);
            },
            Some((port, pid, command, addr)) => {
                let ghost row: Row = (port, pid, command@, addr@);
                assert(rows_after =~= rows_before.push(row));
                assert(rows_after.drop_last() =~= rows_before);
                let key = socket_key_of(port, pid);
                let dup = seen.contains(&key);
                proof {
                    lemma_seen_keys(kept, port, pid, key);
                }
                if dup {
                    assert(first_occurrences(rows_after) == kept);
                } else {
                    let ghost kept2 = kept.push(row);
                    assert(first_occurrences(rows_after) == kept2);
                    seen.insert(key);
                    proof {
                        lemma_seen_keys_push(kept, row, key);
                    }
                    let entry = PortEntry::new(port, pid, command, addr, services);
                    let mut pos: usize = 0;
                    while pos < entries.len() && entries[pos].port <= port
                        invariant
                            pos <= entries@.len(),
                            forall|t: int| 0 <= t < pos ==> (#[trigger] entries@[t]).port <= port,
                        decreases entries@.len() - pos,
                    {
                        pos += 1;
                    }
                    let ghost old_rows = entry_rows(entries@);
                    let ghost old_entries = entries@;
                    let ghost old_perm = perm;
                    let ghost m = kept.len() as int;
                    assert(old_rows.len() == entries@.len());
                    assert forall|u: int| pos <= u < old_rows.len() implies (#[trigger] old_rows[u]).0 > port by {
                        assert(entries@[pos as int].port > port);
                        if u > pos {
                            assert(ord(old_rows[pos as int], old_rows[u]) <= 0);
                        }
                    }
                    entries.insert(pos, entry);
                    proof {
                        perm = old_perm.insert(pos as int, m);
                        let new_rows = entry_rows(entries@);
                        assert(new_rows =~= old_rows.insert(pos as int, row));
                        let p = pos as int;
                        assert forall|t: int| 0 <= t < perm.len() implies 0 <= #[trigger] perm[t] < kept2.len() && new_rows[t] == kept2[perm[t]] by {
                            if t < p {
                                assert(perm[t] == old_perm[t]);
                            } else if t > p {
                                assert(perm[t] == old_perm[t - 1]);
                            }
                        }
                        assert forall|t: int, u: int| 0 <= t < u < perm.len() implies #[trigger] perm[t] != #[trigger] perm[u] by {
                            let ot = if t < p { t } else { t - 1 };
                            let ou = if u < p { u } else { u - 1 };
                            if t != p && u != p {
                                assert(perm[t] == old_perm[ot]);
                                assert(perm[u] == old_perm[ou]);
                            } else if t == p {
                                assert(perm[u] == old_perm[ou]);
                            } else {
                                assert(perm[t] == old_perm[ot]);
                            }
                        }
                        assert forall|t: int, u: int| 0 <= t < u < perm.len() && ord(new_rows[t], new_rows[u]) == 0 implies #[trigger] perm[t] < #[trigger] perm[u] by {
                            let ot = if t < p { t } else { t - 1 };
                            let ou = if u < p { u } else { u - 1 };
                            if t != p && u != p {
                                assert(perm[t] == old_perm[ot]);
                                assert(perm[u] == old_perm[ou]);
                                assert(new_rows[t] == old_rows[ot]);
                                assert(new_rows[u] == old_rows[ou]);
                            } else if t == p {
                                assert(new_rows[u] == old_rows[ou]);
                                assert(old_rows[ou].0 > port);
                            } else {
                                assert(perm[t] == old_perm[ot]);
                            }
                        }
                        assert(stable_permutation(kept2, new_rows, perm, ord));
                        assert forall|t: int, u: int| 0 <= t < u < new_rows.len() implies ord(#[trigger] new_rows[t], #[trigger] new_rows[u]) <= 0 by {
                            let ot = if t < p { t } else { t - 1 };
                            let ou = if u < p { u } else { u - 1 };
                            if t != p && u != p {
                                assert(new_rows[t] == old_rows[ot]);
                                assert(new_rows[u] == old_rows[ou]);
                                assert(ord(old_rows[ot], old_rows[ou]) <= 0);
                            } else if t == p {
                                assert(new_rows[u] == old_rows[ou]);
                                assert(old_rows[ou].0 > port);
                            } else {
                                assert(new_rows[t] == old_rows[ot]);
                                assert(entries@[t].port <= port);
                            }
                        }
                        assert forall|t: int| 0 <= t < entries@.len() implies is_fresh_entry(
                            #[trigger] entries@[t],
                            entries@[t].port,
                            entries@[t].pid,
                            entries@[t].command@,
                            entries@[t].bind_addr@,
                            services@,
                        ) by {
                            if t < p {
                                assert(entries@[t] == old_entries[t]);
                            } else if t > p {
                                assert(entries@[t] == old_entries[t - 1]);
                            }
                        }
                    }
                }
            },
        }
        i += 1;
    }
    assert(dl.take(i - 1) =~= dl);
    entries
}

/// The listening sockets in the output of `lsof -iTCP -sTCP:LISTEN -P -n
/// +c 0`: one fresh entry per `(port, pid)` (its first line), in the order
/// of the lines, then stably sorted by port.
pub fn parse_lsof_output(stdout: &str, services: &HashMap<u16, String>) -> (r: Vec<PortEntry>)
    ensures
        is_stable_sort(listed_rows(stdout@, true), entry_rows(r@), by_port()),
        forall|t: int|
            0 <= t < r@.len() ==> is_fresh_entry(
                #[trigger] r@[t],
                r@[t].port,
                r@[t].pid,
                r@[t].command@,
                r@[t].bind_addr@,
                services@,
            ),
{
    entries_from_output(stdout, services, true)
}

/// The listening sockets in the output of `ss -tlnp`: one fresh entry per
/// `(port, pid)` (its first line), in the order of the lines, then stably
/// sorted by port.
pub fn parse_ss_output(stdout: &str, services: &HashMap<u16, String>) -> (r: Vec<PortEntry>)
    ensures
        is_stable_sort(listed_rows(stdout@, false), entry_rows(r@), by_port()),
        forall|t: int|
            0 <= t < r@.len() ==> is_fresh_entry(
                #[trigger] r@[t],
                r@[t].port,
                r@[t].pid,
                r@[t].command@,
                r@[t].bind_addr@,
                services@,
            ),
{
    entries_from_output(stdout, services, false)
}

} // verus!
