//! Character-level text utilities: whitespace, lines, words, decimal
//! numbers and substring search, each stated over `Seq<char>`.
use vstd::prelude::*;

verus! {

// ---------------------------------------------------------------------------
// Strings and characters
// ---------------------------------------------------------------------------

/// Copies the characters of `s` into a vector.
pub fn chars_of(s: &str) -> (v: Vec<char>)
    ensures
        v@ == s@,
{
    let mut v: Vec<char> = Vec::new();
    for c in it: s.chars()
        invariant
            v@ == it.seq().take(it.index() as int),
            it.seq() == s@,
    {
        v.push(c);
    }
    v
}

/// Appends one character to a string (`String::push`).
#[verifier::external_body]
pub(crate) fn push_char(s: &mut String, c: char)
    ensures
        final(s)@ == old(s)@.push(c),
{
    s.push(c);
}

/// Removes the last character of a string (`String::pop`).
#[verifier::external_body]
pub(crate) fn pop_char(s: &mut String) -> (r: Option<char>)
    ensures
        old(s)@.len() == 0 ==> r is None && final(s)@ == old(s)@,
        old(s)@.len() > 0 ==> r == Some(old(s)@.last()) && final(s)@ == old(s)@.drop_last(),
{
    s.pop()
}

/// Builds a string out of the characters `v[from..to]`.
pub fn string_of(v: &[char], from: usize, to: usize) -> (s: String)
    requires
        from <= to <= v@.len(),
    ensures
        s@ == v@.subrange(from as int, to as int),
{
    let mut s = String::new();
    let mut i = from;
    while i < to
        invariant
            from <= i <= to <= v@.len(),
            s@ == v@.subrange(from as int, i as int),
        decreases to - i,
    {
        push_char(&mut s, v[i]);
        assert(v@.subrange(from as int, i + 1) =~= v@.subrange(from as int, i as int).push(v@[i as int]));
        i += 1;
    }
    s
}

/// Name for what `str::to_lowercase` returns: the Unicode lowercase mapping
/// of a string.
pub uninterp spec fn lowercase(s: Seq<char>) -> Seq<char>;

/// The Unicode lowercase form of `s` (`str::to_lowercase`).
#[verifier::external_body]
pub(crate) fn to_lowercase(s: &str) -> (r: String)
    ensures
        r@ == lowercase(s@),
{
    s.to_lowercase()
}

/// The Unicode `White_Space` property, which `char::is_whitespace` reports.
pub open spec fn is_ws(c: char) -> bool {
    let n = c as u32;
    ||| 0x09 <= n <= 0x0D
    ||| n == 0x20
    ||| n == 0x85
    ||| n == 0xA0
    ||| n == 0x1680
    ||| 0x2000 <= n <= 0x200A
    ||| n == 0x2028
    ||| n == 0x2029
    ||| n == 0x202F
    ||| n == 0x205F
    ||| n == 0x3000
}

/// Whether `c` is Unicode white space.
pub fn is_whitespace(c: char) -> (b: bool)
    ensures
        b == is_ws(c),
{
    let n = c as u32;
    (0x09 <= n && n <= 0x0D) || n == 0x20 || n == 0x85 || n == 0xA0 || n == 0x1680 || (0x2000
        <= n && n <= 0x200A) || n == 0x2028 || n == 0x2029 || n == 0x202F || n == 0x205F || n
        == 0x3000
}

pub open spec fn is_digit(c: char) -> bool {
    '0' <= c <= '9'
}

// ---------------------------------------------------------------------------
// First position of a character class
// ---------------------------------------------------------------------------

/// Position of the first character of `s` that satisfies `p`, or `s.len()`
/// when there is none.
pub open spec fn first_index(s: Seq<char>, p: spec_fn(char) -> bool) -> nat
    decreases s.len(),
{
    if s.len() == 0 {
        0
    } else if p(s[0]) {
        0
    } else {
        1 + first_index(s.drop_first(), p)
    }
}

/// `first_index` is the one position before which nothing satisfies `p` and
/// at which (if inside `s`) `p` holds.
pub proof fn lemma_first_index(s: Seq<char>, p: spec_fn(char) -> bool, k: int)
    requires
        0 <= k <= s.len(),
        forall|j: int| 0 <= j < k ==> !p(#[trigger] s[j]),
        k < s.len() ==> p(s[k]),
    ensures
        first_index(s, p) == k,
    decreases k,
{
    if k > 0 {
        assert forall|j: int| 0 <= j < k - 1 implies !p(#[trigger] s.drop_first()[j]) by {
            assert(s.drop_first()[j] == s[j + 1]);
        }
        lemma_first_index(s.drop_first(), p, k - 1);
    }
}

/// The characterizing properties of `first_index`.
pub proof fn lemma_first_index_props(s: Seq<char>, p: spec_fn(char) -> bool)
    ensures
        first_index(s, p) <= s.len(),
        forall|j: int| 0 <= j < first_index(s, p) ==> !p(#[trigger] s[j]),
        first_index(s, p) < s.len() ==> p(s[first_index(s, p) as int]),
    decreases s.len(),
{
    if s.len() > 0 && !p(s[0]) {
        lemma_first_index_props(s.drop_first(), p);
        assert forall|j: int| 0 <= j < first_index(s, p) implies !p(#[trigger] s[j]) by {
            if j > 0 {
                assert(s[j] == s.drop_first()[j - 1]);
            }
        }
    }
}

/// Position (at or after `from`) of the first character equal to `c`, or `to`.
pub fn find_char(v: &[char], from: usize, to: usize, c: char) -> (k: usize)
    requires
        from <= to <= v@.len(),
    ensures
        from <= k <= to,
        k - from == first_index(v@.subrange(from as int, to as int), |x: char| x == c),
{
    let mut k = from;
    while k < to && v[k] != c
        invariant
            from <= k <= to <= v@.len(),
            forall|j: int| from <= j < k ==> v@[j] != c,
        decreases to - k,
    {
        k += 1;
    }
    let ghost sub = v@.subrange(from as int, to as int);
    proof {
        lemma_first_index(sub, |x: char| x == c, k - from);
    }
    k
}

/// Position (at or after `from`) of the first white-space character, or `to`.
pub fn find_ws(v: &[char], from: usize, to: usize) -> (k: usize)
    requires
        from <= to <= v@.len(),
    ensures
        from <= k <= to,
        k - from == first_index(v@.subrange(from as int, to as int), |x: char| is_ws(x)),
{
    let mut k = from;
    while k < to && !is_whitespace(v[k])
        invariant
            from <= k <= to <= v@.len(),
            forall|j: int| from <= j < k ==> !is_ws(v@[j]),
        decreases to - k,
    {
        k += 1;
    }
    let ghost sub = v@.subrange(from as int, to as int);
    proof {
        lemma_first_index(sub, |x: char| is_ws(x), k - from);
    }
    k
}

/// Position of the last occurrence of `c` in `s`, if any.
pub open spec fn last_index(s: Seq<char>, c: char) -> Option<nat>
    decreases s.len(),
{
    if s.len() == 0 {
        None
    } else if s.last() == c {
        Some((s.len() - 1) as nat)
    } else {
        last_index(s.drop_last(), c)
    }
}

/// `last_index` finds an occurrence of `c` with none after it, and finds
/// none only when `c` does not occur.
pub proof fn lemma_last_index(s: Seq<char>, c: char)
    ensures
        match last_index(s, c) {
            Some(k) => k < s.len() && s[k as int] == c && forall|j: int|
                k < j < s.len() ==> s[j] != c,
            None => forall|j: int| 0 <= j < s.len() ==> s[j] != c,
        },
    decreases s.len(),
{
    if s.len() > 0 && s.last() != c {
        let d = s.drop_last();
        lemma_last_index(d, c);
        assert forall|j: int| 0 <= j < d.len() implies d[j] == s[j] by {}
        match last_index(d, c) {
            Some(k) => {
                assert forall|j: int| k < j < s.len() implies s[j] != c by {
                    if j < d.len() {
                        assert(d[j] == s[j]);
                    }
                }
            },
            None => {
                assert forall|j: int| 0 <= j < s.len() implies s[j] != c by {
                    if j < d.len() {
                        assert(d[j] == s[j]);
                    }
                }
            },
        }
    }
}

/// Position (relative to `from`) of the last occurrence of `c` in
/// `v[from..to]`, if any.
pub fn rfind_char(v: &[char], from: usize, to: usize, c: char) -> (r: Option<usize>)
    requires
        from <= to <= v@.len(),
    ensures
        match r {
            Some(k) => from + k < to && last_index(v@.subrange(from as int, to as int), c) == Some(
                k as nat,
            ),
            None => last_index(v@.subrange(from as int, to as int), c) is None,
        },
{
    let ghost s = v@.subrange(from as int, to as int);
    let mut k = to;
    assert(s.take((k - from) as int) =~= s);
    while k > from && v[k - 1] != c
        invariant
            from <= k <= to <= v@.len(),
            s == v@.subrange(from as int, to as int),
            last_index(s, c) == last_index(s.take(k - from), c),
        decreases k,
    {
        assert(s.take(k - 1 - from) =~= s.take(k - from).drop_last());
        k -= 1;
    }
    if k == from {
        assert(s.take(0) =~= Seq::<char>::empty());
        None
    } else {
        assert(s.take(k - from).last() == v@[k - 1]);
        Some(k - 1 - from)
    }
}

// ---------------------------------------------------------------------------
// Lines and words
// ---------------------------------------------------------------------------

/// `l` without one trailing carriage return.
pub open spec fn strip_cr(l: Seq<char>) -> Seq<char> {
    if l.len() > 0 && l.last() == '\r' {
        l.drop_last()
    } else {
        l
    }
}

/// The lines of `s` as `str::lines` yields them: split at `\n`, a `\r` just
/// before a `\n` dropped, and no empty line after a final `\n`.
pub open spec fn lines(s: Seq<char>) -> Seq<Seq<char>>
    decreases s.len(),
{
    if s.len() == 0 {
        seq![]
    } else {
        let k = first_index(s, |x: char| x == '\n');
        if k < s.len() {
            seq![strip_cr(s.take(k as int))] + lines(s.skip((k + 1) as int))
        } else {
            seq![s]
        }
    }
}

/// The maximal runs of non-white-space characters of `s`, in order, as
/// `str::split_whitespace` yields them.
pub open spec fn words(s: Seq<char>) -> Seq<Seq<char>>
    decreases s.len(),
{
    if s.len() == 0 {
        seq![]
    } else if is_ws(s[0]) {
        words(s.drop_first())
    } else {
        let k = first_index(s, |x: char| is_ws(x));
        if 0 < k <= s.len() {
            seq![s.take(k as int)] + words(s.skip(k as int))
        } else {
            seq![]
        }
    }
}

/// A list of `(start, end)` ranges of `v`, read as the pieces they cover.
pub open spec fn pieces(v: Seq<char>, r: Seq<(usize, usize)>) -> Seq<Seq<char>> {
    r.map_values(|p: (usize, usize)| v.subrange(p.0 as int, p.1 as int))
}

pub open spec fn ranges_within(v: Seq<char>, r: Seq<(usize, usize)>) -> bool {
    forall|i: int| 0 <= i < r.len() ==> #[trigger] r[i].0 <= r[i].1 <= v.len()
}

/// The ranges of the lines of `v`.
pub fn split_lines(v: &[char]) -> (r: Vec<(usize, usize)>)
    ensures
        ranges_within(v@, r@),
        pieces(v@, r@) == lines(v@),
{
    let mut r: Vec<(usize, usize)> = Vec::new();
    let mut pos: usize = 0;
    let n = v.len();
    assert(v@.skip(0) =~= v@);
    assert(pieces(v@, r@) =~= Seq::<Seq<char>>::empty());
    while pos < n
        invariant
            n == v@.len(),
            pos <= n,
            ranges_within(v@, r@),
            pieces(v@, r@) + lines(v@.skip(pos as int)) == lines(v@),
        decreases n - pos,
    {
        let k = find_char(v, pos, n, '\n');
        let ghost rest = v@.skip(pos as int);
        assert(v@.subrange(pos as int, n as int) =~= rest);
        if k < n {
            let end = if k > pos && v[k - 1] == '\r' {
                k - 1
            } else {
                k
            };
            proof {
                assert(rest.take(k - pos) =~= v@.subrange(pos as int, k as int));
                assert(strip_cr(rest.take(k - pos)) =~= v@.subrange(pos as int, end as int));
                assert(rest.skip(k - pos + 1) =~= v@.skip(k + 1));
            }
            let ghost before = r@;
            r.push((pos, end));
            proof {
                assert(pieces(v@, r@) =~= pieces(v@, before).push(v@.subrange(pos as int, end as int)));
            }
            pos = k + 1;
        } else {
            let ghost before = r@;
            r.push((pos, n));
            proof {
                assert(pieces(v@, r@) =~= pieces(v@, before).push(v@.subrange(pos as int, n as int)));
                assert(v@.skip(n as int) =~= Seq::<char>::empty());
            }
            pos = n;
        }
    }
    proof {
        assert(v@.skip(pos as int) =~= Seq::<char>::empty());
    }
    r
}

/// The ranges of the white-space separated words of `v[from..to]`.
pub fn split_words(v: &[char], from: usize, to: usize) -> (r: Vec<(usize, usize)>)
    requires
        from <= to <= v@.len(),
    ensures
        ranges_within(v@, r@),
        pieces(v@, r@) == words(v@.subrange(from as int, to as int)),
{
    let mut r: Vec<(usize, usize)> = Vec::new();
    let mut pos: usize = from;
    assert(pieces(v@, r@) =~= Seq::<Seq<char>>::empty());
    while pos < to
        invariant
            from <= pos <= to <= v@.len(),
            ranges_within(v@, r@),
            pieces(v@, r@) + words(v@.subrange(pos as int, to as int)) == words(
                v@.subrange(from as int, to as int),
            ),
        decreases to - pos,
    {
        let ghost rest = v@.subrange(pos as int, to as int);
        if is_whitespace(v[pos]) {
            assert(rest.drop_first() =~= v@.subrange(pos + 1, to as int));
            pos += 1;
        } else {
            let k = find_ws(v, pos, to);
            proof {
                lemma_first_index_props(rest, |x: char| is_ws(x));
                assert(rest.take(k - pos) =~= v@.subrange(pos as int, k as int));
                assert(rest.skip(k - pos) =~= v@.subrange(k as int, to as int));
            }
            let ghost before = r@;
            r.push((pos, k));
            assert(pieces(v@, r@) =~= pieces(v@, before).push(v@.subrange(pos as int, k as int)));
            pos = k;
        }
    }
    assert(v@.subrange(pos as int, to as int) =~= Seq::<char>::empty());
    r
}

// ---------------------------------------------------------------------------
// Decimal numbers
// ---------------------------------------------------------------------------

pub open spec fn digit_value(c: char) -> nat {
    (c as u32 - '0' as u32) as nat
}

/// The number that a string of decimal digits denotes.
pub open spec fn digits_value(d: Seq<char>) -> nat
    decreases d.len(),
{
    if d.len() == 0 {
        0
    } else {
        digits_value(d.drop_last()) * 10 + digit_value(d.last())
    }
}

/// `s` without one leading `+`.
pub open spec fn unsigned_digits(s: Seq<char>) -> Seq<char> {
    if s.len() > 0 && s[0] == '+' {
        s.drop_first()
    } else {
        s
    }
}

pub open spec fn all_digits(d: Seq<char>) -> bool {
    forall|i: int| 0 <= i < d.len() ==> is_digit(#[trigger] d[i])
}

/// What `str::parse` gives for an unsigned integer type whose largest value
/// is `max`: an optional `+`, then one or more decimal digits whose value is
/// at most `max`.
pub open spec fn parse_unsigned(s: Seq<char>, max: nat) -> Option<nat> {
    let d = unsigned_digits(s);
    if d.len() > 0 && all_digits(d) && digits_value(d) <= max {
        Some(digits_value(d))
    } else {
        None
    }
}

/// Parses `v[from..to]` as an unsigned decimal at most `max`.
pub fn parse_unsigned_in(v: &[char], from: usize, to: usize, max: u64) -> (r: Option<u64>)
    requires
        from <= to <= v@.len(),
        max <= u32::MAX,
    ensures
        match r {
            Some(n) => parse_unsigned(v@.subrange(from as int, to as int), max as nat) == Some(
                n as nat,
            ),
            None => parse_unsigned(v@.subrange(from as int, to as int), max as nat) is None,
        },
{
    let ghost s = v@.subrange(from as int, to as int);
    let start = if from < to && v[from] == '+' {
        from + 1
    } else {
        from
    };
    let ghost d = v@.subrange(start as int, to as int);
    assert(d =~= unsigned_digits(s));
    if start == to {
        return None;
    }
    let mut acc: u64 = 0;
    let mut i = start;
    assert(d.take(0) =~= Seq::<char>::empty());
    while i < to
        invariant
            start <= i <= to <= v@.len(),
            max <= u32::MAX,
            d == v@.subrange(start as int, to as int),
            s == v@.subrange(from as int, to as int),
            d == unsigned_digits(s),
            forall|j: int| 0 <= j < i - start ==> is_digit(#[trigger] d[j]),
            acc as nat == if digits_value(d.take(i - start)) <= max {
                digits_value(d.take(i - start))
            } else {
                max as nat + 1
            },
        decreases to - i,
    {
        let c = v[i];
        if !('0' <= c && c <= '9') {
            assert(d[i - start] == c);
            assert(!is_digit(d[i - start]));
            return None;
        }
        let dv = (c as u32 - '0' as u32) as u64;
        assert(d.take(i - start + 1).drop_last() =~= d.take(i - start));
        assert(d.take(i - start + 1).last() == c);
        let next = acc * 10 + dv;
        acc = if next > max {
            max + 1
        } else {
            next
        };
        i += 1;
    }
    assert(d.take(i - start) =~= d);
    if acc > max {
        None
    } else {
        Some(acc)
    }
}

pub open spec fn digit_char(d: nat) -> char {
    ('0' as nat + d) as char
}

/// The decimal representation of `n`, without leading zeros.
pub open spec fn decimal(n: nat) -> Seq<char>
    decreases n,
{
    if n < 10 {
        seq![digit_char(n)]
    } else {
        decimal(n / 10).push(digit_char(n % 10))
    }
}

fn digit_to_char(d: u64) -> (c: char)
    requires
        d < 10,
    ensures
        c == digit_char(d as nat),
{
    match d {
        0 => '0',
        1 => '1',
        2 => '2',
        3 => '3',
        4 => '4',
        5 => '5',
        6 => '6',
        7 => '7',
        8 => '8',
        _ => '9',
    }
}

/// Appends the decimal representation of `n` to `s`.
pub fn push_decimal(s: &mut String, n: u64)
    ensures
        final(s)@ == old(s)@ + decimal(n as nat),
    decreases n,
{
    if n >= 10 {
        push_decimal(s, n / 10);
    }
    push_char(s, digit_to_char(n % 10));
    if n >= 10 {
        assert(decimal(n as nat) == decimal((n / 10) as nat).push(digit_char((n % 10) as nat)));
    }
}

/// The decimal representation of `n` (`to_string` on an integer).
pub fn decimal_string(n: u64) -> (s: String)
    ensures
        s@ == decimal(n as nat),
{
    let mut s = String::new();
    push_decimal(&mut s, n);
    assert(s@ =~= decimal(n as nat));
    s
}

// ---------------------------------------------------------------------------
// Substrings
// ---------------------------------------------------------------------------

/// `n` occurs in `h` at position `i`.
pub open spec fn occurs_at(h: Seq<char>, n: Seq<char>, i: int) -> bool {
    0 <= i && i + n.len() <= h.len() && h.subrange(i, i + n.len()) == n
}

/// `n` is a substring of `h` (`str::contains`).
pub open spec fn contains(h: Seq<char>, n: Seq<char>) -> bool {
    exists|i: int| occurs_at(h, n, i)
}

/// First position at or after `i` where `n` occurs in `h` (`str::find`).
pub open spec fn find_from(h: Seq<char>, n: Seq<char>, i: nat) -> Option<nat>
    decreases h.len() + 1 - i,
{
    if i + n.len() > h.len() {
        None
    } else if h.subrange(i as int, (i + n.len()) as int) == n {
        Some(i)
    } else {
        find_from(h, n, i + 1)
    }
}

/// `find_from` gives the least occurrence at or after `i`.
pub proof fn lemma_find_from(h: Seq<char>, n: Seq<char>, i: nat)
    ensures
        match find_from(h, n, i) {
            Some(k) => i <= k && occurs_at(h, n, k as int) && forall|j: int|
                i <= j < k ==> !occurs_at(h, n, j),
            None => forall|j: int| i <= j ==> !occurs_at(h, n, j),
        },
    decreases h.len() + 1 - i,
{
    if i + n.len() > h.len() {
    } else if h.subrange(i as int, (i + n.len()) as int) == n {
    } else {
        lemma_find_from(h, n, i + 1);
    }
}

/// Whether `n` occurs in `h` at position `i`.
fn matches_at(h: &[char], n: &[char], i: usize) -> (b: bool)
    requires
        i + n@.len() <= h@.len(),
    ensures
        b == (h@.subrange(i as int, i + n@.len()) == n@),
{
    let mut j: usize = 0;
    let hl = h.len();
    while j < n.len()
        invariant
            hl == h@.len(),
            i + n@.len() <= hl,
            j <= n@.len(),
            forall|t: int| 0 <= t < j ==> h@[i + t] == n@[t],
        decreases n@.len() - j,
    {
        if h[i + j] != n[j] {
            assert(h@.subrange(i as int, i + n@.len())[j as int] != n@[j as int]);
            return false;
        }
        j += 1;
    }
    assert(h@.subrange(i as int, i + n@.len()) =~= n@);
    true
}

/// First position at or after `from` where `n` occurs in `h`.
pub fn find_sub(h: &[char], n: &[char], from: usize) -> (r: Option<usize>)
    ensures
        match r {
            Some(k) => find_from(h@, n@, from as nat) == Some(k as nat),
            None => find_from(h@, n@, from as nat) is None,
        },
{
    let mut i = from;
    if n.len() == 0 {
        if i <= h.len() {
            assert(h@.subrange(i as int, i as int) =~= n@);
            return Some(i);
        } else {
            return None;
        }
    }
    while i <= h.len() && n.len() <= h.len() - i
        invariant
            from <= i,
            n@.len() > 0,
            find_from(h@, n@, from as nat) == find_from(h@, n@, i as nat),
        decreases h@.len() + 1 - i,
    {
        if matches_at(h, n, i) {
            return Some(i);
        }
        i += 1;
    }
    None
}

/// Whether `n` is a substring of `h`.
pub fn contains_chars(h: &[char], n: &[char]) -> (b: bool)
    ensures
        b == contains(h@, n@),
{
    let r = find_sub(h, n, 0);
    proof {
        lemma_find_from(h@, n@, 0);
    }
    r.is_some()
}

/// `s` with every non-overlapping occurrence of `pat`, scanning left to
/// right, replaced by `rep` (`str::replace`).
pub open spec fn replace_all(s: Seq<char>, pat: Seq<char>, rep: Seq<char>) -> Seq<char>
    recommends
        pat.len() > 0,
    decreases s.len(),
{
    if s.len() == 0 || pat.len() == 0 {
        s
    } else if s.len() >= pat.len() && s.take(pat.len() as int) == pat {
        rep + replace_all(s.skip(pat.len() as int), pat, rep)
    } else {
        seq![s[0]] + replace_all(s.drop_first(), pat, rep)
    }
}

/// Where the replacement is one character that `pat` does not hold, a
/// prefix of the result without that character is copied unchanged from
/// the input: no replacement happened inside it.
proof fn lemma_replace_all_copied_prefix(t: Seq<char>, pat: Seq<char>, rep: Seq<char>, m: int)
    requires
        pat.len() > 0,
        rep.len() == 1,
        !pat.contains(rep[0]),
        0 <= m <= replace_all(t, pat, rep).len(),
        forall|i: int| 0 <= i < m ==> replace_all(t, pat, rep)[i] != rep[0],
    ensures
        m <= t.len(),
        t.take(m) == replace_all(t, pat, rep).take(m),
    decreases t.len(),
{
    let r = replace_all(t, pat, rep);
    if m > 0 {
        if t.len() >= pat.len() && t.take(pat.len() as int) == pat {
            assert(r[0] == rep[0]);
        } else {
            let t1 = t.drop_first();
            let r1 = replace_all(t1, pat, rep);
            assert(r == seq![t[0]] + r1);
            assert forall|i: int| 0 <= i < m - 1 implies r1[i] != rep[0] by {
                assert(r[i + 1] == r1[i]);
            }
            lemma_replace_all_copied_prefix(t1, pat, rep, m - 1);
            assert(t.take(m) =~= seq![t[0]] + t1.take(m - 1));
            assert(r.take(m) =~= seq![t[0]] + r1.take(m - 1));
        }
    }
}

/// Replacing every occurrence of `pat` by a single character that `pat`
/// does not hold leaves no occurrence of `pat` in the result, and a text
/// without `pat` is left as it is.
pub proof fn lemma_replace_all_leaves_none(s: Seq<char>, pat: Seq<char>, rep: Seq<char>)
    requires
        pat.len() > 0,
        rep.len() == 1,
        !pat.contains(rep[0]),
    ensures
        !contains(replace_all(s, pat, rep), pat),
        !contains(s, pat) ==> replace_all(s, pat, rep) == s,
        replace_all(pat + s, pat, rep) == rep + replace_all(s, pat, rep),
    decreases s.len(),
{
    let r = replace_all(s, pat, rep);
    let n = pat.len() as int;
    assert((pat + s).take(n) =~= pat);
    assert((pat + s).skip(n) =~= s);
    if s.len() > 0 {
        if s.len() >= n && s.take(n) == pat {
            let t = s.skip(n);
            lemma_replace_all_leaves_none(t, pat, rep);
            let r1 = replace_all(t, pat, rep);
            assert(r == rep + r1);
            assert forall|i: int| !occurs_at(r, pat, i) by {
                if occurs_at(r, pat, i) {
                    if i == 0 {
                        assert(r.subrange(0, n)[0] == pat[0]);
                        assert(pat[0] == rep[0]);
                        assert(pat.contains(rep[0]));
                    } else {
                        assert(r1.subrange(i - 1, i - 1 + n) =~= r.subrange(i, i + n));
                        assert(occurs_at(r1, pat, i - 1));
                    }
                }
            }
            assert(occurs_at(s, pat, 0));
        } else {
            let t = s.drop_first();
            lemma_replace_all_leaves_none(t, pat, rep);
            let r1 = replace_all(t, pat, rep);
            assert(r == seq![s[0]] + r1);
            assert forall|i: int| !occurs_at(r, pat, i) by {
                if occurs_at(r, pat, i) {
                    if i == 0 {
                        let rest = pat.drop_first();
                        assert forall|k: int| 0 <= k < n - 1 implies r1[k] != rep[0] by {
                            assert(r1[k] == r[k + 1]);
                            assert(r[k + 1] == r.subrange(0, n)[k + 1]);
                            assert(pat[k + 1] == r1[k]);
                        }
                        lemma_replace_all_copied_prefix(t, pat, rep, n - 1);
                        assert(s.take(n) =~= seq![s[0]] + t.take(n - 1));
                        assert(r.take(n) =~= seq![s[0]] + r1.take(n - 1));
                        assert(r.take(n) =~= r.subrange(0, n));
                        assert(s.take(n) == pat);
                    } else {
                        assert(r1.subrange(i - 1, i - 1 + n) =~= r.subrange(i, i + n));
                        assert(occurs_at(r1, pat, i - 1));
                    }
                }
            }
            if !contains(s, pat) {
                assert forall|i: int| !occurs_at(t, pat, i) by {
                    if occurs_at(t, pat, i) {
                        assert(s.subrange(i + 1, i + 1 + n) =~= t.subrange(i, i + n));
                        assert(occurs_at(s, pat, i + 1));
                    }
                }
                assert(r =~= s);
            }
        }
    } else {
        assert(!occurs_at(r, pat, 0));
    }
}

/// `v[from..to]` with every occurrence of `pat` replaced by `rep`.
pub fn replace_in(v: &[char], from: usize, to: usize, pat: &[char], rep: &[char]) -> (s: String)
    requires
        from <= to <= v@.len(),
        pat@.len() > 0,
    ensures
        s@ == replace_all(v@.subrange(from as int, to as int), pat@, rep@),
{
    let mut out = String::new();
    let mut pos = from;
    let ghost whole = v@.subrange(from as int, to as int);
    assert(out@ + replace_all(v@.subrange(pos as int, to as int), pat@, rep@) =~= replace_all(whole, pat@, rep@));
    while pos < to
        invariant
            from <= pos <= to <= v@.len(),
            pat@.len() > 0,
            whole == v@.subrange(from as int, to as int),
            out@ + replace_all(v@.subrange(pos as int, to as int), pat@, rep@) == replace_all(
                whole,
                pat@,
                rep@,
            ),
        decreases to - pos,
    {
        let ghost rest = v@.subrange(pos as int, to as int);
        let ghost prev = out@;
        if pat.len() <= to - pos && matches_at(v, pat, pos) {
            assert(rest.take(pat@.len() as int) =~= v@.subrange(pos as int, pos + pat@.len()));
            assert(rest.skip(pat@.len() as int) =~= v@.subrange(pos + pat@.len(), to as int));
            let mut j: usize = 0;
            while j < rep.len()
                invariant
                    j <= rep@.len(),
                    out@ == prev + rep@.take(j as int),
                decreases rep@.len() - j,
            {
                push_char(&mut out, rep[j]);
                assert(rep@.take(j + 1) =~= rep@.take(j as int).push(rep@[j as int]));
                j += 1;
            }
            assert(rep@.take(j as int) =~= rep@);
            assert(out@ + replace_all(v@.subrange(pos + pat@.len(), to as int), pat@, rep@) =~= prev + replace_all(rest, pat@, rep@));
            pos += pat.len();
        } else {
            if pat.len() <= to - pos {
                assert(rest.take(pat@.len() as int) =~= v@.subrange(pos as int, pos + pat@.len()));
            }
            assert(rest.drop_first() =~= v@.subrange(pos + 1, to as int));
            push_char(&mut out, v[pos]);
            assert(out@ + replace_all(v@.subrange(pos + 1, to as int), pat@, rep@) =~= prev + replace_all(rest, pat@, rep@));
            pos += 1;
        }
    }
    assert(v@.subrange(pos as int, to as int) =~= Seq::<char>::empty());
    assert(out@ =~= replace_all(whole, pat@, rep@));
    out
}

} // verus!
