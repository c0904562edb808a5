//! The application state: the port list, its filter and sort order, the
//! selection, the kill-confirmation flow and the metric histories.
use std::collections::VecDeque;
use vstd::prelude::*;

use crate::order::{
    code_point_less, int_order, is_stable_sort, lemma_lex_order_antisym,
    lemma_lex_order_code_points, lemma_lex_order_trans,
    lemma_stable_sort_same_elements, lex_compare, lex_order, stable_permutation,
};
use crate::port_info::{exposure_rank, severity_rank, Exposure, PortEntry, Severity};
use crate::system::{KillResult, KillSignal};
use crate::text::{
    chars_of, contains, contains_chars, decimal, decimal_string, lowercase, pop_char, push_char,
    push_decimal, to_lowercase,
};

verus! {

/// What the keyboard currently drives.
#[derive(Debug, Clone, Copy, PartialEq, Eq, Structural)]
pub enum AppMode {
    Normal,
    Input,
    Confirm,
}

/// Table column the list can be sorted by.
#[derive(Debug, Clone, Copy, PartialEq, Eq, Structural)]
pub enum SortColumn {
    Port,
    Command,
    Pid,
    Cpu,
    Mem,
    Severity,
    Exposure,
}

/// The column after `c` in the cycle Port, Command, PID, CPU, Mem,
/// Severity, Exposure, and back to Port.
pub open spec fn next_column(c: SortColumn) -> SortColumn {
    match c {
        SortColumn::Port => SortColumn::Command,
        SortColumn::Command => SortColumn::Pid,
        SortColumn::Pid => SortColumn::Cpu,
        SortColumn::Cpu => SortColumn::Mem,
        SortColumn::Mem => SortColumn::Severity,
        SortColumn::Severity => SortColumn::Exposure,
        SortColumn::Exposure => SortColumn::Port,
    }
}

pub open spec fn column_label(c: SortColumn) -> Seq<char> {
    match c {
        SortColumn::Port => "Port"@,
        SortColumn::Command => "Command"@,
        SortColumn::Pid => "PID"@,
        SortColumn::Cpu => "CPU%"@,
        SortColumn::Mem => "Mem"@,
        SortColumn::Severity => "Severity"@,
        SortColumn::Exposure => "Exposure"@,
    }
}

/// Number of sort columns, the length of the `next` cycle.
pub const SORT_COLUMN_COUNT: usize = 7;

impl SortColumn {
    /// The next column in the cycle used by the `s` key.
    pub fn next(self) -> (c: SortColumn)
        ensures
            c == next_column(self),
    {
        match self {
            SortColumn::Port => SortColumn::Command,
            SortColumn::Command => SortColumn::Pid,
            SortColumn::Pid => SortColumn::Cpu,
            SortColumn::Cpu => SortColumn::Mem,
            SortColumn::Mem => SortColumn::Severity,
            SortColumn::Severity => SortColumn::Exposure,
            SortColumn::Exposure => SortColumn::Port,
        }
    }

    /// The column's header label.
    pub fn label(self) -> (s: &'static str)
        ensures
            s@ == column_label(self),
    {
        match self {
            SortColumn::Port => "Port",
            SortColumn::Command => "Command",
            SortColumn::Pid => "PID",
            SortColumn::Cpu => "CPU%",
            SortColumn::Mem => "Mem",
            SortColumn::Severity => "Severity",
            SortColumn::Exposure => "Exposure",
        }
    }
}

/// `next_column` applied `n` times.
pub open spec fn next_column_n(c: SortColumn, n: nat) -> SortColumn
    decreases n,
{
    if n == 0 {
        c
    } else {
        next_column(next_column_n(c, (n - 1) as nat))
    }
}

/// Cycling the sort column seven times comes back to the start, and the
/// seven columns met on the way are all different.
pub proof fn lemma_next_column_cycle(c: SortColumn)
    ensures
        next_column_n(c, 7) == c,
        forall|i: nat, j: nat| i < j < 7 ==> next_column_n(c, i) != next_column_n(c, j),
{
    reveal_with_fuel(next_column_n, 8);
}

/// How the list is ordered: known ports first (the startup default), or by
/// one column.
#[derive(Debug, Clone, Copy, PartialEq, Eq, Structural)]
pub enum SortMode {
    KnownFirst,
    Column(SortColumn),
}

/// The sort mode and direction after choosing `column`: the same column
/// again flips the direction, a new column starts ascending.
pub open spec fn column_choice(mode: SortMode, ascending: bool, column: SortColumn) -> (
    SortMode,
    bool,
) {
    if mode == SortMode::Column(column) {
        (mode, !ascending)
    } else {
        (SortMode::Column(column), true)
    }
}

/// Choosing the same column twice keeps sorting by it and reverses the
/// direction the first choice gave; whatever came before, the first choice
/// sorts by that column.
pub proof fn lemma_same_column_twice(mode: SortMode, ascending: bool, column: SortColumn)
    ensures
        column_choice(mode, ascending, column).0 == SortMode::Column(column),
        ({
            let (m1, a1) = column_choice(mode, ascending, column);
            column_choice(m1, a1, column) == (m1, !a1)
        }),
{
}

/// Cap on each metric history.
pub const METRICS_HISTORY_LEN: usize = 120;

/// `buffer` with `value` appended, dropping the oldest sample first when
/// the buffer is at the cap.
pub open spec fn bounded_push(buffer: Seq<u64>, value: u64) -> Seq<u64> {
    if buffer.len() == METRICS_HISTORY_LEN {
        buffer.drop_first().push(value)
    } else {
        buffer.push(value)
    }
}

/// Pushes `value` onto `buffer`, evicting the oldest entry once the cap is
/// reached.
pub fn push_bounded(buffer: &mut VecDeque<u64>, value: u64)
    ensures
        final(buffer)@ == bounded_push(old(buffer)@, value),
        old(buffer)@.len() <= METRICS_HISTORY_LEN ==> final(buffer)@.len() <= METRICS_HISTORY_LEN,
{
    if buffer.len() == METRICS_HISTORY_LEN {
        buffer.pop_front();
    }
    buffer.push_back(value);
}

/// The history after pushing each of `values` in turn onto `start`.
pub open spec fn bounded_push_all(start: Seq<u64>, values: Seq<u64>) -> Seq<u64>
    decreases values.len(),
{
    if values.len() == 0 {
        start
    } else {
        bounded_push(bounded_push_all(start, values.drop_last()), values.last())
    }
}

/// Starting empty, a history holds exactly the last (at most 120) samples
/// pushed, oldest first.
pub proof fn lemma_history_keeps_latest(values: Seq<u64>)
    ensures
        bounded_push_all(Seq::empty(), values) == (if values.len() <= METRICS_HISTORY_LEN {
            values
        } else {
            values.skip(values.len() - METRICS_HISTORY_LEN)
        }),
    decreases values.len(),
{
    if values.len() > 0 {
        let prefix = values.drop_last();
        lemma_history_keeps_latest(prefix);
        if values.len() <= METRICS_HISTORY_LEN {
            assert(prefix.push(values.last()) =~= values);
        } else if prefix.len() <= METRICS_HISTORY_LEN {
            assert(prefix.drop_first().push(values.last()) =~= values.skip(
                values.len() - METRICS_HISTORY_LEN,
            ));
        } else {
            assert(prefix.skip(prefix.len() - METRICS_HISTORY_LEN).drop_first().push(
                values.last(),
            ) =~= values.skip(values.len() - METRICS_HISTORY_LEN));
        }
    }
}

/// The key by which `f32::total_cmp` orders a float, computed from its bits:
/// negative numbers (sign bit set) below positive ones, each side ordered
/// by magnitude.
pub open spec fn cpu_key(bits: u32) -> int {
    if bits >= 0x8000_0000 {
        -((bits - 0x8000_0000) as int) - 1
    } else {
        bits as int
    }
}

fn cpu_order_key(bits: u32) -> (k: i64)
    ensures
        k == cpu_key(bits),
{
    if bits >= 0x8000_0000 {
        -((bits - 0x8000_0000) as i64) - 1
    } else {
        bits as i64
    }
}

/// How two entries compare in ascending order under `mode`: known ports
/// first and then by port for `KnownFirst`, else by the column's value
/// (commands case-insensitively, CPU by `f32::total_cmp`).
pub open spec fn entry_order(a: PortEntry, b: PortEntry, mode: SortMode) -> int {
    match mode {
        SortMode::KnownFirst => if a.known != b.known {
            if a.known {
                -1
            } else {
                1
            }
        } else {
            int_order(a.port as int, b.port as int)
        },
        SortMode::Column(column) => match column {
            SortColumn::Port => int_order(a.port as int, b.port as int),
            SortColumn::Command => lex_order(lowercase(a.command@), lowercase(b.command@)),
            SortColumn::Pid => int_order(a.pid as int, b.pid as int),
            SortColumn::Cpu => int_order(cpu_key(a.cpu_percent_bits), cpu_key(b.cpu_percent_bits)),
            SortColumn::Mem => int_order(a.memory_bytes as int, b.memory_bytes as int),
            SortColumn::Severity => int_order(
                severity_rank(a.severity) as int,
                severity_rank(b.severity) as int,
            ),
            SortColumn::Exposure => int_order(
                exposure_rank(a.exposure) as int,
                exposure_rank(b.exposure) as int,
            ),
        },
    }
}

/// The order the list shows: `entry_order`, reversed for a descending
/// column sort. `KnownFirst` has a fixed direction.
pub open spec fn display_order(a: PortEntry, b: PortEntry, mode: SortMode, ascending: bool) -> int {
    if ascending || mode == SortMode::KnownFirst {
        entry_order(a, b, mode)
    } else {
        -entry_order(a, b, mode)
    }
}

/// `display_order` is a total preorder: antisymmetric and transitive.
pub proof fn lemma_display_order(
    a: PortEntry,
    b: PortEntry,
    c: PortEntry,
    mode: SortMode,
    ascending: bool,
)
    ensures
        display_order(a, b, mode, ascending) == -display_order(b, a, mode, ascending),
        -1 <= display_order(a, b, mode, ascending) <= 1,
        display_order(a, b, mode, ascending) <= 0 && display_order(b, c, mode, ascending) <= 0
            ==> display_order(a, c, mode, ascending) <= 0,
{
    lemma_lex_order_antisym(lowercase(a.command@), lowercase(b.command@));
    lemma_lex_order_antisym(lowercase(b.command@), lowercase(c.command@));
    lemma_lex_order_antisym(lowercase(a.command@), lowercase(c.command@));
    if lex_order(lowercase(a.command@), lowercase(b.command@)) <= 0 && lex_order(
        lowercase(b.command@),
        lowercase(c.command@),
    ) <= 0 {
        lemma_lex_order_trans(lowercase(a.command@), lowercase(b.command@), lowercase(c.command@));
    }
    if lex_order(lowercase(c.command@), lowercase(b.command@)) <= 0 && lex_order(
        lowercase(b.command@),
        lowercase(a.command@),
    ) <= 0 {
        lemma_lex_order_trans(lowercase(c.command@), lowercase(b.command@), lowercase(a.command@));
    }
}

fn lowercase_chars(s: &String) -> (v: Vec<char>)
    ensures
        v@ == lowercase(s@),
{
    let lower = to_lowercase(s.as_str());
    chars_of(lower.as_str())
}

fn int_compare(a: i64, b: i64) -> (r: i8)
    ensures
        r == int_order(a as int, b as int),
{
    if a < b {
        -1
    } else if a == b {
        0
    } else {
        1
    }
}

fn u64_compare(a: u64, b: u64) -> (r: i8)
    ensures
        r == int_order(a as int, b as int),
{
    if a < b {
        -1
    } else if a == b {
        0
    } else {
        1
    }
}

/// Compares two entries in the order the list shows under `mode`.
pub fn compare_entries(a: &PortEntry, b: &PortEntry, mode: SortMode, ascending: bool) -> (r: i8)
    ensures
        r == display_order(*a, *b, mode, ascending),
{
    let base: i8 = match mode {
        SortMode::KnownFirst => {
            if a.known != b.known {
                if a.known {
                    -1
                } else {
                    1
                }
            } else {
                u64_compare(a.port as u64, b.port as u64)
            }
        },
        SortMode::Column(column) => match column {
            SortColumn::Port => u64_compare(a.port as u64, b.port as u64),
            SortColumn::Command => {
                let la = lowercase_chars(&a.command);
                let lb = lowercase_chars(&b.command);
                lex_compare(&la, &lb)
            },
            SortColumn::Pid => u64_compare(a.pid as u64, b.pid as u64),
            SortColumn::Cpu => int_compare(
                cpu_order_key(a.cpu_percent_bits),
                cpu_order_key(b.cpu_percent_bits),
            ),
            SortColumn::Mem => u64_compare(a.memory_bytes, b.memory_bytes),
            SortColumn::Severity => u64_compare(
                a.severity.rank() as u64,
                b.severity.rank() as u64,
            ),
            SortColumn::Exposure => u64_compare(
                a.exposure.rank() as u64,
                b.exposure.rank() as u64,
            ),
        },
    };
    proof {
        lemma_display_order(*a, *b, *b, mode, ascending);
    }
    if ascending || mode == SortMode::KnownFirst {
        base
    } else {
        -base
    }
}

/// The display order of the entries two indices point at.
pub open spec fn index_order(entries: Seq<PortEntry>, mode: SortMode, ascending: bool) -> spec_fn(
    usize,
    usize,
) -> int {
    |x: usize, y: usize| display_order(entries[x as int], entries[y as int], mode, ascending)
}

pub open spec fn indexed_order(entries: Seq<PortEntry>, mode: SortMode, ascending: bool, x: usize, y: usize) -> int {
    display_order(entries[x as int], entries[y as int], mode, ascending)
}

/// Reorders `indices` into the stable sort, by the display order, of the
/// entries they point at. `ascending` applies to column sorts only.
pub fn sort_indices(
    entries: &[PortEntry],
    indices: &mut Vec<usize>,
    mode: SortMode,
    ascending: bool,
)
    requires
        forall|t: int| 0 <= t < old(indices)@.len() ==> old(indices)@[t] < entries@.len(),
    ensures
        is_stable_sort(old(indices)@, final(indices)@, index_order(entries@, mode, ascending)),
        forall|t: int| 0 <= t < final(indices)@.len() ==> final(indices)@[t] < entries@.len(),
{
    let ghost input = indices@;
    let ghost es = entries@;
    let n = indices.len();
    let ghost mut perm: Seq<int> = Seq::new(n as nat, |t: int| t);
    let mut i: usize = 0;
    while i < n
        invariant
            n == indices@.len(),
            input.len() == n,
            es == entries@,
            forall|t: int| 0 <= t < n ==> #[trigger] indices@[t] < es.len(),
            i <= n,
            perm.len() == n,
            forall|t: int|
                0 <= t < n ==> 0 <= #[trigger] perm[t] < n && indices@[t] == input[perm[t]],
            forall|t: int, u: int| 0 <= t < u < n ==> #[trigger] perm[t] != #[trigger] perm[u],
            forall|t: int| i <= t < n ==> #[trigger] perm[t] == t,
            forall|t: int| 0 <= t < i ==> #[trigger] perm[t] < i,
            forall|a: int, b: int|
                0 <= a < b < i ==> indexed_order(es, mode, ascending, #[trigger] indices@[a], #[trigger] indices@[b]) <= 0,
            forall|a: int, b: int|
                0 <= a < b < i && indexed_order(es, mode, ascending, indices@[a], indices@[b]) == 0
                    ==> #[trigger] perm[a] < #[trigger] perm[b],
        decreases n - i,
    {
        let mut j = i;
        let mut more = j > 0 && compare_entries(&entries[indices[j - 1]], &entries[indices[j]], mode, ascending) > 0;
        while more
            invariant
                n == indices@.len(),
                input.len() == n,
                es == entries@,
                forall|t: int| 0 <= t < n ==> #[trigger] indices@[t] < es.len(),
                j <= i < n,
                perm.len() == n,
                forall|t: int|
                    0 <= t < n ==> 0 <= #[trigger] perm[t] < n && indices@[t] == input[perm[t]],
                forall|t: int, u: int| 0 <= t < u < n ==> #[trigger] perm[t] != #[trigger] perm[u],
                forall|t: int| i < t < n ==> #[trigger] perm[t] == t,
                perm[j as int] == i,
                forall|t: int| 0 <= t <= i && t != j ==> #[trigger] perm[t] < i,
                forall|a: int, b: int|
                    0 <= a < b <= i && a != j && b != j ==> indexed_order(es, mode, ascending, #[trigger] indices@[a], #[trigger] indices@[b]) <= 0,
                forall|b: int| j < b <= i ==> indexed_order(es, mode, ascending, indices@[j as int], #[trigger] indices@[b]) < 0,
                forall|a: int, b: int|
                    0 <= a < b <= i && indexed_order(es, mode, ascending, indices@[a], indices@[b]) == 0
                        ==> #[trigger] perm[a] < #[trigger] perm[b],
                more ==> j > 0 && indexed_order(es, mode, ascending, indices@[j - 1], indices@[j as int]) > 0,
                !more ==> j == 0 || indexed_order(es, mode, ascending, indices@[j - 1], indices@[j as int]) <= 0,
            decreases j,
        {
            let x = indices[j];
            let y = indices[j - 1];
            let ghost v = indices@;
            let ghost p = perm;
            proof {
                lemma_display_order(es[y as int], es[x as int], es[x as int], mode, ascending);
            }
            indices.set(j - 1, x);
            indices.set(j, y);
            proof {
                perm = p.update(j - 1, p[j as int]).update(j as int, p[j - 1]);
                let jj = j as int;
                assert forall|t: int, u: int| 0 <= t < u < n implies #[trigger] perm[t] != #[trigger] perm[u] by {
                    let ot = if t == jj - 1 { jj } else if t == jj { jj - 1 } else { t };
                    let ou = if u == jj - 1 { jj } else if u == jj { jj - 1 } else { u };
                    assert(perm[t] == p[ot]);
                    assert(perm[u] == p[ou]);
                    if ot < ou {
                        assert(p[ot] != p[ou]);
                    } else {
                        assert(p[ou] != p[ot]);
                    }
                }
                assert forall|t: int| 0 <= t < n implies 0 <= #[trigger] perm[t] < n && indices@[t] == input[perm[t]] by {
                    let ot = if t == jj - 1 { jj } else if t == jj { jj - 1 } else { t };
                    assert(perm[t] == p[ot]);
                    assert(indices@[t] == v[ot]);
                }
                assert forall|a: int, b: int|
                    0 <= a < b <= i && a != jj - 1 && b != jj - 1 implies indexed_order(es, mode, ascending, #[trigger] indices@[a], #[trigger] indices@[b]) <= 0 by {
                    let oa = if a == jj { jj - 1 } else { a };
                    let ob = if b == jj { jj - 1 } else { b };
                    assert(indices@[a] == v[oa]);
                    assert(indices@[b] == v[ob]);
                    assert(indexed_order(es, mode, ascending, v[oa], v[ob]) <= 0);
                }
                assert forall|b: int| jj - 1 < b <= i implies indexed_order(es, mode, ascending, indices@[jj - 1], #[trigger] indices@[b]) < 0 by {
                    if b == jj {
                    } else {
                        assert(indices@[b] == v[b]);
                        assert(indexed_order(es, mode, ascending, v[jj], v[b]) < 0);
                    }
                }
                assert forall|a: int, b: int|
                    0 <= a < b <= i && indexed_order(es, mode, ascending, indices@[a], indices@[b]) == 0
                        implies #[trigger] perm[a] < #[trigger] perm[b] by {
                    let oa = if a == jj - 1 { jj } else if a == jj { jj - 1 } else { a };
                    let ob = if b == jj - 1 { jj } else if b == jj { jj - 1 } else { b };
                    assert(indices@[a] == v[oa]);
                    assert(indices@[b] == v[ob]);
                    assert(perm[a] == p[oa]);
                    assert(perm[b] == p[ob]);
                    if a == jj - 1 && b == jj {
                        assert(false);
                    } else {
                        assert(oa < ob);
                        assert(indexed_order(es, mode, ascending, v[oa], v[ob]) == 0);
                        assert(p[oa] < p[ob]);
                    }
                }
            }
            j -= 1;
            more = j > 0 && compare_entries(&entries[indices[j - 1]], &entries[indices[j]], mode, ascending) > 0;
        }
        proof {
            let jj = j as int;
            assert forall|a: int, b: int|
                0 <= a < b < i + 1 implies indexed_order(es, mode, ascending, #[trigger] indices@[a], #[trigger] indices@[b]) <= 0 by {
                if b == jj && a < jj - 1 {
                    lemma_display_order(es[indices@[a] as int], es[indices@[jj - 1] as int], es[indices@[jj] as int], mode, ascending);
                    assert(indexed_order(es, mode, ascending, indices@[a], indices@[jj - 1]) <= 0);
                }
            }
            assert forall|t: int| 0 <= t < i + 1 implies #[trigger] perm[t] < i + 1 by {
                if t != jj {
                    assert(perm[t] < i);
                }
            }
        }
        i += 1;
    }
    proof {
        let ord = index_order(es, mode, ascending);
        assert forall|a: int, b: int| 0 <= a < b < indices@.len() implies ord(#[trigger] indices@[a], #[trigger] indices@[b]) <= 0 by {
            assert(indexed_order(es, mode, ascending, indices@[a], indices@[b]) <= 0);
        }
        assert(stable_permutation(input, indices@, perm, ord));
    }
}

/// How long after a refresh the list is scanned again.
pub const REFRESH_INTERVAL_MS: u64 = 2000;
/// How long a status message stays visible.
pub const STATUS_MESSAGE_TIMEOUT_MS: u64 = 3000;

/// Whether an entry matches a (lower-cased) filter query: by the digits of
/// its port, or case-insensitively by its command or description.
pub open spec fn matches_query(e: PortEntry, query: Seq<char>) -> bool {
    ||| contains(decimal(e.port as nat), query)
    ||| contains(lowercase(e.command@), query)
    ||| contains(lowercase(e.description@), query)
}

/// The indices below `n` of the entries that match `query`, in order.
pub open spec fn matching_indices(entries: Seq<PortEntry>, query: Seq<char>, n: nat) -> Seq<usize>
    decreases n,
{
    if n == 0 {
        Seq::empty()
    } else {
        let prev = matching_indices(entries, query, (n - 1) as nat);
        if matches_query(entries[n - 1], query) {
            prev.push((n - 1) as usize)
        } else {
            prev
        }
    }
}

/// The indices the filter keeps, before sorting: all of them for an empty
/// filter, else those of the entries matching the lower-cased filter.
pub open spec fn filter_of(entries: Seq<PortEntry>, input: Seq<char>) -> Seq<usize> {
    if input.len() == 0 {
        Seq::new(entries.len(), |i: int| i as usize)
    } else {
        matching_indices(entries, lowercase(input), entries.len())
    }
}

/// A kill that the user confirmed and that the caller is to carry out.
#[derive(Debug)]
pub struct KillRequest {
    pub pid: u32,
    pub port: u16,
    pub command: String,
    pub signal: KillSignal,
}

/// The status line reporting a kill's outcome.
pub open spec fn kill_message(command: Seq<char>, pid: u32, port: u16, result: KillResult) -> Seq<
    char,
> {
    match result {
        KillResult::Success => "Killed \""@ + command + "\" (PID "@ + decimal(pid as nat)
            + ") on port "@ + decimal(port as nat),
        KillResult::PermissionDenied => "Permission denied: cannot kill PID "@ + decimal(
            pid as nat,
        ) + " (try sudo)"@,
        KillResult::ProcessNotFound => "Process \""@ + command + "\" (PID "@ + decimal(pid as nat)
            + ") no longer exists"@,
    }
}

/// A key press, as far as the application distinguishes keys.
#[derive(Debug, Clone, Copy, PartialEq, Eq, Structural)]
pub enum Key {
    Char(char),
    Up,
    Down,
    Enter,
    Esc,
    Backspace,
    Other,
}

/// What the caller must do after a key press.
#[derive(Debug)]
pub enum KeyAction {
    Nothing,
    /// Scan the ports again and hand the result to `refresh_ports`.
    Refresh,
    /// Send the signal, then report with `kill_finished` and refresh.
    Kill(KillRequest),
}

/// `sel` kept inside a list of `len` rows: 0 for an empty list, the last
/// row when it was past the end.
pub open spec fn clamped_selection(sel: usize, len: nat) -> usize {
    if len == 0 {
        0
    } else if sel >= len {
        (len - 1) as usize
    } else {
        sel
    }
}

/// The selection one row up, wrapping to the bottom.
pub open spec fn selection_up(sel: usize, len: nat) -> usize {
    if len == 0 {
        sel
    } else if sel == 0 {
        (len - 1) as usize
    } else {
        (sel - 1) as usize
    }
}

/// The selection one row down, wrapping to the top.
pub open spec fn selection_down(sel: usize, len: nat) -> usize {
    if len == 0 {
        sel
    } else if sel >= len - 1 {
        0
    } else {
        (sel + 1) as usize
    }
}

/// The application state.
pub struct App {
    pub entries: Vec<PortEntry>,
    pub filtered_indices: Vec<usize>,
    pub selected_index: usize,
    pub mode: AppMode,
    pub input_buffer: String,
    pub should_quit: bool,
    /// When the list was last refreshed, in milliseconds on the caller's
    /// monotonic clock.
    pub last_refresh_ms: u64,
    pub status_message: Option<String>,
    /// When the status message was set, on the same clock.
    pub status_message_time_ms: Option<u64>,
    pub sort_mode: SortMode,
    pub sort_ascending: bool,
    /// Whether the pending confirmation is a force kill (`SIGKILL`).
    pub confirm_force: bool,
    /// Running as root; without it only the user's own sockets are seen.
    pub elevated: bool,
    /// First filtered-list index visible in the table.
    pub table_offset: usize,
    /// Global CPU% samples, oldest first, at most `METRICS_HISTORY_LEN`.
    pub cpu_history: VecDeque<u64>,
    /// Global memory% samples, oldest first, at most `METRICS_HISTORY_LEN`.
    pub mem_history: VecDeque<u64>,
}

impl App {
    /// The state's invariant: the filtered indices point into the entries,
    /// the selection is inside the filtered list (0 when it is empty), and
    /// the histories are within their cap.
    pub open spec fn wf(&self) -> bool {
        &&& forall|t: int|
            0 <= t < self.filtered_indices@.len() ==> #[trigger] self.filtered_indices@[t]
                < self.entries@.len()
        &&& self.filtered_indices@.len() == 0 ==> self.selected_index == 0
        &&& self.filtered_indices@.len() > 0 ==> self.selected_index
            < self.filtered_indices@.len()
        &&& self.cpu_history@.len() <= METRICS_HISTORY_LEN
        &&& self.mem_history@.len() <= METRICS_HISTORY_LEN
    }

    /// The entry the selection points at, if any.
    pub open spec fn selected(&self) -> Option<PortEntry> {
        if self.selected_index < self.filtered_indices@.len()
            && self.filtered_indices@[self.selected_index as int] < self.entries@.len() {
            Some(self.entries@[self.filtered_indices@[self.selected_index as int] as int])
        } else {
            None
        }
    }

    /// `after` holds the filter of `before` applied again: its filtered list
    /// is the stable sort, in `after`'s order, of the entries that match
    /// `after`'s filter text, and the selection is kept inside it.
    pub open spec fn refiltered(before: App, after: App) -> bool {
        &&& is_stable_sort(
            filter_of(after.entries@, after.input_buffer@),
            after.filtered_indices@,
            index_order(after.entries@, after.sort_mode, after.sort_ascending),
        )
        &&& after.selected_index == clamped_selection(
            before.selected_index,
            after.filtered_indices@.len(),
        )
    }

    /// A fresh application: no entries, normal mode, known ports first.
    /// `elevated` tells whether the process runs as root; `now_ms` is the
    /// current time on the caller's clock.
    pub fn new(elevated: bool, now_ms: u64) -> (app: App)
        ensures
            app.wf(),
            app.entries@.len() == 0,
            app.filtered_indices@.len() == 0,
            app.selected_index == 0,
            app.mode == AppMode::Normal,
            app.input_buffer@.len() == 0,
            !app.should_quit,
            app.last_refresh_ms == now_ms,
            app.status_message is None,
            app.status_message_time_ms is None,
            app.sort_mode == SortMode::KnownFirst,
            app.sort_ascending,
            !app.confirm_force,
            app.elevated == elevated,
            app.table_offset == 0,
            app.cpu_history@.len() == 0,
            app.mem_history@.len() == 0,
    {
        App {
            entries: Vec::new(),
            filtered_indices: Vec::new(),
            selected_index: 0,
            mode: AppMode::Normal,
            input_buffer: String::new(),
            should_quit: false,
            last_refresh_ms: now_ms,
            status_message: None,
            status_message_time_ms: None,
            sort_mode: SortMode::KnownFirst,
            sort_ascending: true,
            confirm_force: false,
            elevated,
            table_offset: 0,
            cpu_history: VecDeque::with_capacity(METRICS_HISTORY_LEN),
            mem_history: VecDeque::with_capacity(METRICS_HISTORY_LEN),
        }
    }

    /// Appends one CPU%/memory% sample to the bounded histories.
    pub fn record_system_metrics(&mut self, cpu_pct: u64, mem_pct: u64)
        ensures
            old(self).wf() ==> final(self).wf(),
            final(self).cpu_history@ == bounded_push(old(self).cpu_history@, cpu_pct),
            final(self).mem_history@ == bounded_push(old(self).mem_history@, mem_pct),
            *final(self) == (App {
                cpu_history: final(self).cpu_history,
                mem_history: final(self).mem_history,
                ..*old(self)
            }),
    {
        push_bounded(&mut self.cpu_history, cpu_pct);
        push_bounded(&mut self.mem_history, mem_pct);
    }

    /// Recomputes the filtered list from the entries and the filter text,
    /// sorts it, and keeps the selection inside it.
    pub fn apply_filter(&mut self)
        ensures
            old(self).cpu_history@.len() <= METRICS_HISTORY_LEN
                && old(self).mem_history@.len() <= METRICS_HISTORY_LEN ==> final(self).wf(),
            App::refiltered(*old(self), *final(self)),
            *final(self) == (App {
                filtered_indices: final(self).filtered_indices,
                selected_index: final(self).selected_index,
                ..*old(self)
            }),
    {
        let n = self.entries.len();
        let mut kept: Vec<usize> = Vec::new();
        let ghost es = self.entries@;
        if self.input_buffer.as_str().is_empty() {
            let mut i: usize = 0;
            while i < n
                invariant
                    n == es.len(),
                    i <= n,
                    kept@ == Seq::new(i as nat, |t: int| t as usize),
                decreases n - i,
            {
                kept.push(i);
                assert(kept@ =~= Seq::new((i + 1) as nat, |t: int| t as usize));
                i += 1;
            }
        } else {
            let lowered = to_lowercase(self.input_buffer.as_str());
            let query = chars_of(lowered.as_str());
            let mut i: usize = 0;
            while i < n
                invariant
                    n == es.len(),
                    es == self.entries@,
                    query@ == lowercase(self.input_buffer@),
                    i <= n,
                    kept@ == matching_indices(es, query@, i as nat),
                decreases n - i,
            {
                let entry = &self.entries[i];
                let digits = chars_of(decimal_string(entry.port as u64).as_str());
                let command = chars_of(to_lowercase(entry.command.as_str()).as_str());
                let description = chars_of(to_lowercase(entry.description.as_str()).as_str());
                if contains_chars(&digits, &query) || contains_chars(&command, &query)
                    || contains_chars(&description, &query) {
                    kept.push(i);
                }
                i += 1;
            }
        }
        assert(kept@ == filter_of(es, self.input_buffer@));
        assert forall|t: int| 0 <= t < kept@.len() implies #[trigger] kept@[t] < es.len() by {
            if self.input_buffer@.len() != 0 {
                lemma_matching_indices(es, lowercase(self.input_buffer@), n as nat);
                assert(kept@.contains(kept@[t]));
            }
        }
        self.filtered_indices = kept;
        sort_indices(self.entries.as_slice(), &mut self.filtered_indices, self.sort_mode, self.sort_ascending);
        if self.filtered_indices.len() == 0 {
            self.selected_index = 0;
        } else if self.selected_index >= self.filtered_indices.len() {
            self.selected_index = self.filtered_indices.len() - 1;
        }
    }

    /// Switches to sorting by `column`; choosing the current column again
    /// flips the direction, a new column starts ascending.
    pub fn set_sort_column(&mut self, column: SortColumn)
        requires
            old(self).wf(),
        ensures
            final(self).wf(),
            (final(self).sort_mode, final(self).sort_ascending) == column_choice(
                old(self).sort_mode,
                old(self).sort_ascending,
                column,
            ),
            App::refiltered(*old(self), *final(self)),
            *final(self) == (App {
                filtered_indices: final(self).filtered_indices,
                selected_index: final(self).selected_index,
                sort_mode: final(self).sort_mode,
                sort_ascending: final(self).sort_ascending,
                ..*old(self)
            }),
    {
        if self.sort_mode == SortMode::Column(column) {
            self.sort_ascending = !self.sort_ascending;
        } else {
            self.sort_mode = SortMode::Column(column);
            self.sort_ascending = true;
        }
        self.apply_filter();
    }

    /// The `s` key: from the known-first default, sort by the first column;
    /// otherwise advance to the next column. The direction becomes
    /// ascending.
    pub fn cycle_sort_column(&mut self)
        requires
            old(self).wf(),
        ensures
            final(self).wf(),
            final(self).sort_mode == SortMode::Column(
                match old(self).sort_mode {
                    SortMode::Column(c) => next_column(c),
                    SortMode::KnownFirst => SortColumn::Port,
                },
            ),
            final(self).sort_ascending,
            App::refiltered(*old(self), *final(self)),
            *final(self) == (App {
                filtered_indices: final(self).filtered_indices,
                selected_index: final(self).selected_index,
                sort_mode: final(self).sort_mode,
                sort_ascending: final(self).sort_ascending,
                ..*old(self)
            }),
    {
        let next = match self.sort_mode {
            SortMode::Column(column) => column.next(),
            SortMode::KnownFirst => SortColumn::Port,
        };
        self.sort_mode = SortMode::Column(next);
        self.sort_ascending = true;
        self.apply_filter();
    }

    /// Moves the selection up one row, wrapping from the top to the bottom.
    pub fn move_selection_up(&mut self)
        requires
            old(self).wf(),
        ensures
            final(self).wf(),
            final(self).selected_index == selection_up(
                old(self).selected_index,
                old(self).filtered_indices@.len(),
            ),
            *final(self) == (App { selected_index: final(self).selected_index, ..*old(self) }),
    {
        if self.filtered_indices.len() == 0 {
            return;
        }
        if self.selected_index == 0 {
            self.selected_index = self.filtered_indices.len() - 1;
        } else {
            self.selected_index -= 1;
        }
    }

    /// Moves the selection down one row, wrapping from the bottom to the top.
    pub fn move_selection_down(&mut self)
        requires
            old(self).wf(),
        ensures
            final(self).wf(),
            final(self).selected_index == selection_down(
                old(self).selected_index,
                old(self).filtered_indices@.len(),
            ),
            *final(self) == (App { selected_index: final(self).selected_index, ..*old(self) }),
    {
        if self.filtered_indices.len() == 0 {
            return;
        }
        if self.selected_index >= self.filtered_indices.len() - 1 {
            self.selected_index = 0;
        } else {
            self.selected_index += 1;
        }
    }

    /// The entry under the selection, if any.
    pub fn selected_entry(&self) -> (r: Option<&PortEntry>)
        ensures
            match r {
                Some(e) => self.selected() == Some(*e),
                None => self.selected() is None,
            },
    {
        if self.selected_index < self.filtered_indices.len() {
            let idx = self.filtered_indices[self.selected_index];
            if idx < self.entries.len() {
                return Some(&self.entries[idx]);
            }
        }
        None
    }

    /// Selects the row `visible_offset` rows below the first visible one;
    /// a row past the end of the list is ignored.
    pub fn select_visible_row(&mut self, visible_offset: usize)
        requires
            old(self).wf(),
            old(self).table_offset + visible_offset <= usize::MAX,
        ensures
            final(self).wf(),
            final(self).selected_index == (if old(self).table_offset + visible_offset
                < old(self).filtered_indices@.len() {
                (old(self).table_offset + visible_offset) as usize
            } else {
                old(self).selected_index
            }),
            *final(self) == (App { selected_index: final(self).selected_index, ..*old(self) }),
    {
        let index = self.table_offset + visible_offset;
        if index < self.filtered_indices.len() {
            self.selected_index = index;
        }
    }

    /// Records the table's rendered scroll offset.
    pub fn record_table_offset(&mut self, offset: usize)
        ensures
            *final(self) == (App { table_offset: offset, ..*old(self) }),
    {
        self.table_offset = offset;
    }

    pub fn enter_input_mode(&mut self)
        ensures
            *final(self) == (App { mode: AppMode::Input, ..*old(self) }),
    {
        self.mode = AppMode::Input;
    }

    pub fn exit_input_mode(&mut self)
        ensures
            *final(self) == (App { mode: AppMode::Normal, ..*old(self) }),
    {
        self.mode = AppMode::Normal;
    }

    /// Asks for confirmation of a kill of the selected entry; `force`
    /// picks `SIGKILL` over `SIGTERM`. Without a selection nothing changes.
    pub fn request_kill(&mut self, force: bool)
        ensures
            old(self).selected() is Some ==> *final(self) == (App {
                mode: AppMode::Confirm,
                confirm_force: force,
                ..*old(self)
            }),
            old(self).selected() is None ==> *final(self) == *old(self),
    {
        if self.selected_entry().is_some() {
            self.mode = AppMode::Confirm;
            self.confirm_force = force;
        }
    }

    /// Confirms the pending kill: back to normal mode, and the kill to
    /// carry out for the selected entry, with the signal that was asked for.
    pub fn confirm_kill(&mut self) -> (r: Option<KillRequest>)
        ensures
            *final(self) == (App { mode: AppMode::Normal, ..*old(self) }),
            match r {
                Some(req) => old(self).selected() matches Some(e) && req.pid == e.pid && req.port
                    == e.port && req.command@ == e.command@ && req.signal == (if old(
                    self,
                ).confirm_force {
                    KillSignal::Kill
                } else {
                    KillSignal::Terminate
                }),
                None => old(self).selected() is None,
            },
    {
        self.mode = AppMode::Normal;
        let signal = if self.confirm_force {
            KillSignal::Kill
        } else {
            KillSignal::Terminate
        };
        match self.selected_entry() {
            Some(entry) => Some(
                KillRequest {
                    pid: entry.pid,
                    port: entry.port,
                    command: entry.command.clone(),
                    signal,
                },
            ),
            None => None,
        }
    }

    /// Records a kill's outcome as the status message, stamped `now_ms`.
    pub fn kill_finished(&mut self, request: &KillRequest, result: KillResult, now_ms: u64)
        ensures
            final(self).status_message matches Some(m) && m@ == kill_message(
                request.command@,
                request.pid,
                request.port,
                result,
            ),
            *final(self) == (App {
                status_message: final(self).status_message,
                status_message_time_ms: Some(now_ms),
                ..*old(self)
            }),
    {
        let mut msg = String::new();
        match result {
            KillResult::Success => {
                msg.append("Killed \"");
                msg.append(request.command.as_str());
                msg.append("\" (PID ");
                push_decimal(&mut msg, request.pid as u64);
                msg.append(") on port ");
                push_decimal(&mut msg, request.port as u64);
            },
            KillResult::PermissionDenied => {
                msg.append("Permission denied: cannot kill PID ");
                push_decimal(&mut msg, request.pid as u64);
                msg.append(" (try sudo)");
            },
            KillResult::ProcessNotFound => {
                msg.append("Process \"");
                msg.append(request.command.as_str());
                msg.append("\" (PID ");
                push_decimal(&mut msg, request.pid as u64);
                msg.append(") no longer exists");
            },
        }
        self.status_message = Some(msg);
        self.status_message_time_ms = Some(now_ms);
    }

    pub fn cancel_kill(&mut self)
        ensures
            *final(self) == (App { mode: AppMode::Normal, ..*old(self) }),
    {
        self.mode = AppMode::Normal;
    }

    /// Installs a fresh scan: the new entries, one sample of global CPU%
    /// and memory%, the filter applied again, and the refresh time.
    pub fn refresh_ports(&mut self, entries: Vec<PortEntry>, cpu_pct: u64, mem_pct: u64, now_ms: u64)
        requires
            old(self).wf(),
        ensures
            final(self).wf(),
            final(self).entries@ == entries@,
            final(self).cpu_history@ == bounded_push(old(self).cpu_history@, cpu_pct),
            final(self).mem_history@ == bounded_push(old(self).mem_history@, mem_pct),
            App::refiltered(*old(self), *final(self)),
            *final(self) == (App {
                entries: final(self).entries,
                filtered_indices: final(self).filtered_indices,
                selected_index: final(self).selected_index,
                cpu_history: final(self).cpu_history,
                mem_history: final(self).mem_history,
                last_refresh_ms: now_ms,
                ..*old(self)
            }),
    {
        self.entries = entries;
        self.record_system_metrics(cpu_pct, mem_pct);
        self.apply_filter();
        self.last_refresh_ms = now_ms;
    }

    /// Time passing: clears a status message older than its timeout, and
    /// tells whether a refresh is due.
    pub fn tick(&mut self, now_ms: u64) -> (refresh_due: bool)
        ensures
            refresh_due == (now_ms >= old(self).last_refresh_ms && now_ms - old(self).last_refresh_ms
                >= REFRESH_INTERVAL_MS),
            (old(self).status_message_time_ms matches Some(t) && now_ms >= t && now_ms - t
                >= STATUS_MESSAGE_TIMEOUT_MS) ==> *final(self) == (App {
                status_message: None,
                status_message_time_ms: None,
                ..*old(self)
            }),
            !(old(self).status_message_time_ms matches Some(t) && now_ms >= t && now_ms - t
                >= STATUS_MESSAGE_TIMEOUT_MS) ==> *final(self) == *old(self),
    {
        if let Some(time) = self.status_message_time_ms {
            if now_ms >= time && now_ms - time >= STATUS_MESSAGE_TIMEOUT_MS {
                self.status_message = None;
                self.status_message_time_ms = None;
            }
        }
        now_ms >= self.last_refresh_ms && now_ms - self.last_refresh_ms >= REFRESH_INTERVAL_MS
    }
    /// Handles one key press and says what the caller must do next.
    ///
    /// Ctrl+C quits in any mode. In normal mode: `q` quits, Up/`k` and
    /// Down/`j` move the selection, Enter asks to kill the selected entry
    /// and `K` to force-kill it, `/` starts filtering, `r` asks for a
    /// refresh, `s` cycles the sort column. While filtering: Esc clears
    /// the filter and leaves, Enter leaves, Backspace deletes the last
    /// character, any other character is appended; the filter is applied
    /// after each change. While confirming: `y`/Enter confirm the kill,
    /// `n`/Esc cancel it.
    pub fn handle_key(&mut self, key: Key, ctrl: bool) -> (action: KeyAction)
        requires
            old(self).wf(),
        ensures
            final(self).wf(),
            action is Kill ==> old(self).mode == AppMode::Confirm,
            ctrl && key == Key::Char('c') ==> action is Nothing && *final(self) == (App {
                should_quit: true,
                ..*old(self)
            }),
            !(ctrl && key == Key::Char('c')) && old(self).mode == AppMode::Normal ==> match key {
                Key::Char('q') => action is Nothing && *final(self) == (App {
                    should_quit: true,
                    ..*old(self)
                }),
                Key::Up | Key::Char('k') => action is Nothing && *final(self) == (App {
                    selected_index: selection_up(
                        old(self).selected_index,
                        old(self).filtered_indices@.len(),
                    ),
                    ..*old(self)
                }),
                Key::Down | Key::Char('j') => action is Nothing && *final(self) == (App {
                    selected_index: selection_down(
                        old(self).selected_index,
                        old(self).filtered_indices@.len(),
                    ),
                    ..*old(self)
                }),
                Key::Enter | Key::Char('K') => action is Nothing && (old(self).selected() is Some
                    ==> *final(self) == (App {
                    mode: AppMode::Confirm,
                    confirm_force: key == Key::Char('K'),
                    ..*old(self)
                })) && (old(self).selected() is None ==> *final(self) == *old(self)),
                Key::Char('/') => action is Nothing && *final(self) == (App {
                    mode: AppMode::Input,
                    ..*old(self)
                }),
                Key::Char('r') => action is Refresh && *final(self) == *old(self),
                Key::Char('s') => action is Nothing && final(self).sort_mode == SortMode::Column(
                    match old(self).sort_mode {
                        SortMode::Column(c) => next_column(c),
                        SortMode::KnownFirst => SortColumn::Port,
                    },
                ) && final(self).sort_ascending && App::refiltered(*old(self), *final(self))
                    && *final(self) == (App {
                    filtered_indices: final(self).filtered_indices,
                    selected_index: final(self).selected_index,
                    sort_mode: final(self).sort_mode,
                    sort_ascending: final(self).sort_ascending,
                    ..*old(self)
                }),
                _ => action is Nothing && *final(self) == *old(self),
            },
            !(ctrl && key == Key::Char('c')) && old(self).mode == AppMode::Input ==> match key {
                Key::Esc => action is Nothing && final(self).input_buffer@.len() == 0
                    && App::refiltered(*old(self), *final(self)) && *final(self) == (App {
                    input_buffer: final(self).input_buffer,
                    filtered_indices: final(self).filtered_indices,
                    selected_index: final(self).selected_index,
                    mode: AppMode::Normal,
                    ..*old(self)
                }),
                Key::Enter => action is Nothing && *final(self) == (App {
                    mode: AppMode::Normal,
                    ..*old(self)
                }),
                Key::Backspace => action is Nothing && final(self).input_buffer@ == (if old(
                    self,
                ).input_buffer@.len() == 0 {
                    old(self).input_buffer@
                } else {
                    old(self).input_buffer@.drop_last()
                }) && App::refiltered(*old(self), *final(self)) && *final(self) == (App {
                    input_buffer: final(self).input_buffer,
                    filtered_indices: final(self).filtered_indices,
                    selected_index: final(self).selected_index,
                    ..*old(self)
                }),
                Key::Char(c) => action is Nothing && final(self).input_buffer@ == old(
                    self,
                ).input_buffer@.push(c) && App::refiltered(*old(self), *final(self))
                    && *final(self) == (App {
                    input_buffer: final(self).input_buffer,
                    filtered_indices: final(self).filtered_indices,
                    selected_index: final(self).selected_index,
                    ..*old(self)
                }),
                _ => action is Nothing && *final(self) == *old(self),
            },
            !(ctrl && key == Key::Char('c')) && old(self).mode == AppMode::Confirm ==> match key {
                Key::Char('y') | Key::Enter => *final(self) == (App {
                    mode: AppMode::Normal,
                    ..*old(self)
                }) && match action {
                    KeyAction::Kill(req) => old(self).selected() matches Some(e) && req.pid == e.pid
                        && req.port == e.port && req.command@ == e.command@ && req.signal == (if old(
                        self,
                    ).confirm_force {
                        KillSignal::Kill
                    } else {
                        KillSignal::Terminate
                    }),
                    KeyAction::Nothing => old(self).selected() is None,
                    KeyAction::Refresh => false,
                },
                Key::Char('n') | Key::Esc => action is Nothing && *final(self) == (App {
                    mode: AppMode::Normal,
                    ..*old(self)
                }),
                _ => action is Nothing && *final(self) == *old(self),
            },
    {
        if ctrl && key == Key::Char('c') {
            self.should_quit = true;
            return KeyAction::Nothing;
        }
        match self.mode {
            AppMode::Normal => match key {
                Key::Char('q') => {
                    self.should_quit = true;
                },
                Key::Up | Key::Char('k') => self.move_selection_up(),
                Key::Down | Key::Char('j') => self.move_selection_down(),
                Key::Enter => self.request_kill(false),
                Key::Char('K') => self.request_kill(true),
                Key::Char('/') => self.enter_input_mode(),
                Key::Char('r') => {
                    return KeyAction::Refresh;
                },
                Key::Char('s') => self.cycle_sort_column(),
                _ => {},
            },
            AppMode::Input => match key {
                Key::Esc => {
                    self.input_buffer = String::new();
                    self.apply_filter();
                    self.exit_input_mode();
                },
                Key::Enter => self.exit_input_mode(),
                Key::Backspace => {
                    pop_char(&mut self.input_buffer);
                    self.apply_filter();
                },
                Key::Char(c) => {
                    push_char(&mut self.input_buffer, c);
                    self.apply_filter();
                },
                _ => {},
            },
            AppMode::Confirm => match key {
                Key::Char('y') | Key::Enter => {
                    return match self.confirm_kill() {
                        Some(req) => KeyAction::Kill(req),
                        None => KeyAction::Nothing,
                    };
                },
                Key::Char('n') | Key::Esc => self.cancel_kill(),
                _ => {},
            },
        }
        KeyAction::Nothing
    }

}

/// `matching_indices` holds, in increasing order, exactly the indices below
/// `n` whose entries match.
pub proof fn lemma_matching_indices(entries: Seq<PortEntry>, query: Seq<char>, n: nat)
    requires
        n <= usize::MAX,
    ensures
        forall|i: usize|
            matching_indices(entries, query, n).contains(i) <==> (i < n && matches_query(
                entries[i as int],
                query,
            )),
        forall|a: int, b: int|
            0 <= a < b < matching_indices(entries, query, n).len() ==> #[trigger] matching_indices(
                entries,
                query,
                n,
            )[a] < #[trigger] matching_indices(entries, query, n)[b],
    decreases n,
{
    if n > 0 {
        let prev = matching_indices(entries, query, (n - 1) as nat);
        lemma_matching_indices(entries, query, (n - 1) as nat);
        let cur = matching_indices(entries, query, n);
        let last = (n - 1) as usize;
        if matches_query(entries[n - 1], query) {
            assert(cur == prev.push(last));
            assert forall|i: usize| cur.contains(i) <==> (i < n && matches_query(entries[i as int], query)) by {
                if i == last {
                    assert(cur[prev.len() as int] == i);
                } else if cur.contains(i) {
                    let t = choose|t: int| 0 <= t < cur.len() && cur[t] == i;
                    assert(prev[t] == i);
                    assert(prev.contains(i));
                } else if prev.contains(i) {
                    let t = choose|t: int| 0 <= t < prev.len() && prev[t] == i;
                    assert(cur[t] == i);
                }
            }
            assert forall|a: int, b: int| 0 <= a < b < cur.len() implies #[trigger] cur[a] < #[trigger] cur[b] by {
                if b == prev.len() {
                    assert(prev.contains(prev[a]));
                } else {
                    assert(prev[a] < prev[b]);
                }
            }
        } else {
            assert(cur == prev);
        }
    }
}

/// The filtered list before sorting has no index twice, and holds exactly
/// the entries the filter text selects.
proof fn lemma_filter_of(entries: Seq<PortEntry>, input: Seq<char>)
    requires
        entries.len() <= usize::MAX,
    ensures
        forall|i: usize|
            filter_of(entries, input).contains(i) <==> (i < entries.len() && (input.len() == 0
                || matches_query(entries[i as int], lowercase(input)))),
        forall|a: int, b: int|
            0 <= a < b < filter_of(entries, input).len() ==> #[trigger] filter_of(entries, input)[a]
                != #[trigger] filter_of(entries, input)[b],
{
    let f = filter_of(entries, input);
    if input.len() == 0 {
        assert forall|i: usize| f.contains(i) <==> i < entries.len() by {
            if i < entries.len() {
                assert(f[i as int] == i);
            }
        }
    } else {
        lemma_matching_indices(entries, lowercase(input), entries.len());
    }
}

/// After the filter is applied, the list holds each entry that matches the
/// filter text (every entry when the text is empty) exactly once, and no
/// other entry.
pub proof fn lemma_filter_keeps_matches(before: App, after: App)
    requires
        App::refiltered(before, after),
    ensures
        forall|i: usize|
            after.filtered_indices@.contains(i) <==> (i < after.entries@.len() && (
            after.input_buffer@.len() == 0 || matches_query(
                after.entries@[i as int],
                lowercase(after.input_buffer@),
            ))),
        forall|a: int, b: int|
            0 <= a < b < after.filtered_indices@.len() ==> #[trigger] after.filtered_indices@[a]
                != #[trigger] after.filtered_indices@[b],
{
    let es = after.entries@;
    let input = filter_of(es, after.input_buffer@);
    let out = after.filtered_indices@;
    let ord = index_order(es, after.sort_mode, after.sort_ascending);
    assert(after.entries.len() == es.len());
    lemma_filter_of(es, after.input_buffer@);
    lemma_stable_sort_same_elements(input, out, ord);
    let perm = choose|perm: Seq<int>| stable_permutation(input, out, perm, ord);
    assert forall|a: int, b: int| 0 <= a < b < out.len() implies #[trigger] out[a] != #[trigger] out[b] by {
        assert(perm[a] != perm[b]);
        if perm[a] < perm[b] {
            assert(input[perm[a]] != input[perm[b]]);
        } else {
            assert(input[perm[b]] != input[perm[a]]);
        }
    }
}

/// After the filter is applied the list shows its entries in the display
/// order: with known ports first, the known ones come before the others
/// and each group is by ascending port; a descending column sort shows
/// the column's values from largest to smallest.
pub proof fn lemma_filter_order(before: App, after: App, a: int, b: int)
    requires
        App::refiltered(before, after),
        0 <= a < b < after.filtered_indices@.len(),
    ensures
        ({
            let x = after.entries@[after.filtered_indices@[a] as int];
            let y = after.entries@[after.filtered_indices@[b] as int];
            &&& after.sort_mode == SortMode::KnownFirst ==> (x.known || !y.known) && (x.known
                == y.known ==> x.port <= y.port)
            &&& after.sort_ascending ==> entry_order(x, y, after.sort_mode) <= 0
            &&& after.sort_mode != SortMode::KnownFirst && !after.sort_ascending ==> entry_order(
                x,
                y,
                after.sort_mode,
            ) >= 0
        }),
{
    let ord = index_order(after.entries@, after.sort_mode, after.sort_ascending);
    let out = after.filtered_indices@;
    lemma_filter_keeps_matches(before, after);
    assert(out.contains(out[a]) && out.contains(out[b]));
    assert(ord(out[a], out[b]) <= 0);
}

/// `q` occurs in `text` starting at position `j`.
pub open spec fn found_at(text: Seq<char>, q: Seq<char>, j: int) -> bool {
    0 <= j && j + q.len() <= text.len() && text.subrange(j, j + q.len()) == q
}

/// A non-empty filter keeps an entry exactly when the lower-cased filter
/// text occurs somewhere (at any position, not only at an end) in the
/// entry's port digits, its lower-cased command or its lower-cased
/// description.
pub proof fn lemma_filter_finds_substrings(before: App, after: App, i: usize, j: int)
    requires
        App::refiltered(before, after),
        after.input_buffer@.len() > 0,
        i < after.entries@.len(),
    ensures
        ({
            let e = after.entries@[i as int];
            let q = lowercase(after.input_buffer@);
            &&& found_at(decimal(e.port as nat), q, j) ==> after.filtered_indices@.contains(i)
            &&& found_at(lowercase(e.command@), q, j) ==> after.filtered_indices@.contains(i)
            &&& found_at(lowercase(e.description@), q, j) ==> after.filtered_indices@.contains(i)
            &&& after.filtered_indices@.contains(i) ==> exists|k: int|
                #![trigger found_at(decimal(e.port as nat), q, k)]
                #![trigger found_at(lowercase(e.command@), q, k)]
                #![trigger found_at(lowercase(e.description@), q, k)]
                found_at(decimal(e.port as nat), q, k) || found_at(lowercase(e.command@), q, k)
                    || found_at(lowercase(e.description@), q, k)
        }),
{
    lemma_filter_keeps_matches(before, after);
    let e = after.entries@[i as int];
    let q = lowercase(after.input_buffer@);
    if found_at(decimal(e.port as nat), q, j) || found_at(lowercase(e.command@), q, j)
        || found_at(lowercase(e.description@), q, j) {
        if found_at(decimal(e.port as nat), q, j) {
            assert(crate::text::occurs_at(decimal(e.port as nat), q, j));
        } else if found_at(lowercase(e.command@), q, j) {
            assert(crate::text::occurs_at(lowercase(e.command@), q, j));
        } else {
            assert(crate::text::occurs_at(lowercase(e.description@), q, j));
        }
        assert(matches_query(e, q));
        assert(after.filtered_indices@.contains(i));
    }
    if after.filtered_indices@.contains(i) {
        assert(matches_query(e, q));
        if contains(decimal(e.port as nat), q) {
            let k = choose|k: int| crate::text::occurs_at(decimal(e.port as nat), q, k);
            assert(found_at(decimal(e.port as nat), q, k));
        } else if contains(lowercase(e.command@), q) {
            let k = choose|k: int| crate::text::occurs_at(lowercase(e.command@), q, k);
            assert(found_at(lowercase(e.command@), q, k));
        } else {
            let k = choose|k: int| crate::text::occurs_at(lowercase(e.description@), q, k);
            assert(found_at(lowercase(e.description@), q, k));
        }
    }
}

/// Each column sorts by its own value: ascending puts the entry with the
/// smaller port, pid, memory, severity (Low, Medium, High, Critical) or
/// exposure (loopback, specific, all interfaces) first, and CPU figures
/// in numeric order (for two non-negative figures, as their bit patterns;
/// every negative figure before every non-negative one); descending does
/// the opposite.
pub proof fn lemma_column_orders(x: PortEntry, y: PortEntry, ascending: bool)
    ensures
        x.port < y.port ==> (display_order(x, y, SortMode::Column(SortColumn::Port), ascending) < 0
            <==> ascending),
        x.pid < y.pid ==> (display_order(x, y, SortMode::Column(SortColumn::Pid), ascending) < 0
            <==> ascending),
        x.memory_bytes < y.memory_bytes ==> (display_order(
            x,
            y,
            SortMode::Column(SortColumn::Mem),
            ascending,
        ) < 0 <==> ascending),
        x.cpu_percent_bits < y.cpu_percent_bits < 0x8000_0000 ==> (display_order(
            x,
            y,
            SortMode::Column(SortColumn::Cpu),
            ascending,
        ) < 0 <==> ascending),
        x.cpu_percent_bits >= 0x8000_0000 && y.cpu_percent_bits < 0x8000_0000 ==> (display_order(
            x,
            y,
            SortMode::Column(SortColumn::Cpu),
            ascending,
        ) < 0 <==> ascending),
        ({
            let s = seq![Severity::Low, Severity::Medium, Severity::High, Severity::Critical];
            forall|i: int, j: int|
                0 <= i < j < 4 && x.severity == s[i] && y.severity == s[j] ==> (display_order(
                    x,
                    y,
                    SortMode::Column(SortColumn::Severity),
                    ascending,
                ) < 0 <==> ascending)
        }),
        ({
            let e = seq![Exposure::Loopback, Exposure::Specific, Exposure::AllInterfaces];
            forall|i: int, j: int|
                0 <= i < j < 3 && x.exposure == e[i] && y.exposure == e[j] ==> (display_order(
                    x,
                    y,
                    SortMode::Column(SortColumn::Exposure),
                    ascending,
                ) < 0 <==> ascending)
        }),
{
}

/// Sorting by command compares the lower-cased commands in code-point
/// order, whatever their lengths: ascending puts the one that comes first
/// in front, descending behind.
pub proof fn lemma_command_order(x: PortEntry, y: PortEntry)
    requires
        code_point_less(lowercase(x.command@), lowercase(y.command@)),
    ensures
        display_order(x, y, SortMode::Column(SortColumn::Command), true) < 0,
        display_order(x, y, SortMode::Column(SortColumn::Command), false) > 0,
{
    lemma_lex_order_code_points(lowercase(x.command@), lowercase(y.command@));
}

/// In a list sorted ascending by command (what `sort_indices` gives), no
/// entry stands behind one whose lower-cased command comes after its own
/// in code-point order.
pub proof fn lemma_sorted_by_command(
    entries: Seq<PortEntry>,
    input: Seq<usize>,
    output: Seq<usize>,
    a: int,
    b: int,
)
    requires
        is_stable_sort(input, output, index_order(entries, SortMode::Column(SortColumn::Command), true)),
        0 <= a < b < output.len(),
    ensures
        !code_point_less(
            lowercase(entries[output[b] as int].command@),
            lowercase(entries[output[a] as int].command@),
        ),
{
    let x = entries[output[a] as int];
    let y = entries[output[b] as int];
    let ord = index_order(entries, SortMode::Column(SortColumn::Command), true);
    assert(ord(output[a], output[b]) <= 0);
    lemma_lex_order_code_points(lowercase(y.command@), lowercase(x.command@));
    lemma_lex_order_antisym(lowercase(x.command@), lowercase(y.command@));
}

/// Moving the selection down undoes moving it up, and the other way round.
pub proof fn lemma_selection_up_down(sel: usize, len: nat)
    requires
        sel < len <= usize::MAX,
    ensures
        selection_up(sel, len) < len,
        selection_down(sel, len) < len,
        selection_down(selection_up(sel, len), len) == sel,
        selection_up(selection_down(sel, len), len) == sel,
{
}

} // verus!
