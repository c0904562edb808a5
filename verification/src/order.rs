//! Three-way comparisons and what it means for a sequence to be a stable
//! sort of another.
use vstd::prelude::*;

verus! {

/// Three-way comparison of integers: -1, 0 or 1.
pub open spec fn int_order(a: int, b: int) -> int {
    if a < b {
        -1
    } else if a == b {
        0
    } else {
        1
    }
}

/// Lexicographic three-way comparison of texts by code point, which is the
/// order `String`'s `Ord` gives (UTF-8 keeps code-point order).
pub open spec fn lex_order(a: Seq<char>, b: Seq<char>) -> int
    decreases a.len(),
{
    if a.len() == 0 {
        if b.len() == 0 {
            0
        } else {
            -1
        }
    } else if b.len() == 0 {
        1
    } else if a[0] != b[0] {
        if a[0] < b[0] {
            -1
        } else {
            1
        }
    } else {
        lex_order(a.drop_first(), b.drop_first())
    }
}

/// `lex_order` is antisymmetric and is 0 exactly on equal texts.
pub proof fn lemma_lex_order_antisym(a: Seq<char>, b: Seq<char>)
    ensures
        lex_order(a, b) == -lex_order(b, a),
        -1 <= lex_order(a, b) <= 1,
        lex_order(a, b) == 0 <==> a == b,
    decreases a.len(),
{
    if a.len() > 0 && b.len() > 0 && a[0] == b[0] {
        lemma_lex_order_antisym(a.drop_first(), b.drop_first());
        if a.drop_first() == b.drop_first() {
            assert(a =~= seq![a[0]] + a.drop_first());
            assert(b =~= seq![b[0]] + b.drop_first());
        }
        if a == b {
            assert(a.drop_first() =~= b.drop_first());
        }
    }
    if a.len() == 0 && b.len() == 0 {
        assert(a =~= b);
    }
}

/// `lex_order` is transitive.
pub proof fn lemma_lex_order_trans(a: Seq<char>, b: Seq<char>, c: Seq<char>)
    requires
        lex_order(a, b) <= 0,
        lex_order(b, c) <= 0,
    ensures
        lex_order(a, c) <= 0,
    decreases a.len(),
{
    lemma_lex_order_antisym(a, b);
    lemma_lex_order_antisym(b, c);
    if a.len() > 0 && b.len() > 0 && c.len() > 0 && a[0] == b[0] && b[0] == c[0] {
        lemma_lex_order_trans(a.drop_first(), b.drop_first(), c.drop_first());
    }
}

/// `a` comes before `b` in code-point order: at the first position where
/// they differ `a` has the smaller character, or `a` is a proper prefix of
/// `b`.
pub open spec fn code_point_less(a: Seq<char>, b: Seq<char>) -> bool {
    ||| exists|k: int| 0 <= k < a.len() && k < b.len() && a.take(k) == b.take(k) && a[k] < b[k]
    ||| a.len() < b.len() && a == b.take(a.len() as int)
}

/// `lex_order` is code-point order: -1 when `a` comes first, 1 when `b`
/// does, whatever the lengths.
pub proof fn lemma_lex_order_code_points(a: Seq<char>, b: Seq<char>)
    ensures
        code_point_less(a, b) ==> lex_order(a, b) == -1,
        code_point_less(b, a) ==> lex_order(a, b) == 1,
    decreases a.len(),
{
    lemma_lex_order_antisym(a, b);
    if a.len() > 0 && b.len() > 0 && a[0] == b[0] {
        let a1 = a.drop_first();
        let b1 = b.drop_first();
        lemma_lex_order_code_points(a1, b1);
        if code_point_less(a, b) {
            if exists|k: int| 0 <= k < a.len() && k < b.len() && a.take(k) == b.take(k) && a[k] < b[k] {
                let k = choose|k: int| 0 <= k < a.len() && k < b.len() && a.take(k) == b.take(k) && a[k] < b[k];
                assert(k > 0);
                assert(a1.take(k - 1) =~= a.take(k).drop_first());
                assert(b1.take(k - 1) =~= b.take(k).drop_first());
                assert(a1[k - 1] == a[k] && b1[k - 1] == b[k]);
                assert(code_point_less(a1, b1));
            } else {
                assert(a1 =~= b1.take(a1.len() as int));
                assert(code_point_less(a1, b1));
            }
        }
        if code_point_less(b, a) {
            if exists|k: int| 0 <= k < b.len() && k < a.len() && b.take(k) == a.take(k) && b[k] < a[k] {
                let k = choose|k: int| 0 <= k < b.len() && k < a.len() && b.take(k) == a.take(k) && b[k] < a[k];
                assert(k > 0);
                assert(a1.take(k - 1) =~= a.take(k).drop_first());
                assert(b1.take(k - 1) =~= b.take(k).drop_first());
                assert(a1[k - 1] == a[k] && b1[k - 1] == b[k]);
                assert(code_point_less(b1, a1));
            } else {
                assert(b1 =~= a1.take(b1.len() as int));
                assert(code_point_less(b1, a1));
            }
        }
    } else if a.len() > 0 && b.len() > 0 {
        if code_point_less(a, b) {
            if exists|k: int| 0 <= k < a.len() && k < b.len() && a.take(k) == b.take(k) && a[k] < b[k] {
                let k = choose|k: int| 0 <= k < a.len() && k < b.len() && a.take(k) == b.take(k) && a[k] < b[k];
                if k > 0 {
                    assert(a.take(k)[0] == b.take(k)[0]);
                }
            } else {
                assert(a[0] == b.take(a.len() as int)[0]);
            }
        }
        if code_point_less(b, a) {
            if exists|k: int| 0 <= k < b.len() && k < a.len() && b.take(k) == a.take(k) && b[k] < a[k] {
                let k = choose|k: int| 0 <= k < b.len() && k < a.len() && b.take(k) == a.take(k) && b[k] < a[k];
                if k > 0 {
                    assert(a.take(k)[0] == b.take(k)[0]);
                }
            } else {
                assert(b[0] == a.take(b.len() as int)[0]);
            }
        }
    }
}

/// Lexicographic comparison of two character vectors.
pub fn lex_compare(a: &[char], b: &[char]) -> (r: i8)
    ensures
        r == lex_order(a@, b@),
{
    let mut i: usize = 0;
    assert(a@.skip(0) =~= a@);
    assert(b@.skip(0) =~= b@);
    while i < a.len() && i < b.len() && a[i] == b[i]
        invariant
            i <= a@.len(),
            i <= b@.len(),
            lex_order(a@, b@) == lex_order(a@.skip(i as int), b@.skip(i as int)),
        decreases a@.len() - i,
    {
        assert(a@.skip(i as int).drop_first() =~= a@.skip(i + 1));
        assert(b@.skip(i as int).drop_first() =~= b@.skip(i + 1));
        i += 1;
    }
    let ghost sa = a@.skip(i as int);
    let ghost sb = b@.skip(i as int);
    if i < a.len() {
        assert(sa[0] == a@[i as int]);
    }
    if i < b.len() {
        assert(sb[0] == b@[i as int]);
    }
    if i == a.len() {
        if i == b.len() {
            0
        } else {
            -1
        }
    } else if i == b.len() {
        1
    } else {
        if a[i] < b[i] {
            -1
        } else {
            1
        }
    }
}

/// `s` is ordered by `ord`.
pub open spec fn sorted_by<T>(s: Seq<T>, ord: spec_fn(T, T) -> int) -> bool {
    forall|a: int, b: int| 0 <= a < b < s.len() ==> ord(#[trigger] s[a], #[trigger] s[b]) <= 0
}

/// `output[t]` is `input[perm[t]]`, `perm` is a permutation of the
/// positions, and elements that compare equal keep their relative order.
pub open spec fn stable_permutation<T>(
    input: Seq<T>,
    output: Seq<T>,
    perm: Seq<int>,
    ord: spec_fn(T, T) -> int,
) -> bool {
    &&& output.len() == input.len()
    &&& perm.len() == input.len()
    &&& forall|t: int|
        0 <= t < perm.len() ==> 0 <= #[trigger] perm[t] < input.len() && output[t] == input[perm[t]]
    &&& forall|t: int, u: int| 0 <= t < u < perm.len() ==> #[trigger] perm[t] != #[trigger] perm[u]
    &&& forall|t: int, u: int|
        0 <= t < u < perm.len() && ord(output[t], output[u]) == 0 ==> #[trigger] perm[t]
            < #[trigger] perm[u]
}

/// `output` is the stable sort of `input` by `ord`: ordered, and a
/// permutation that keeps equal elements in their input order.
pub open spec fn is_stable_sort<T>(input: Seq<T>, output: Seq<T>, ord: spec_fn(T, T) -> int) -> bool {
    &&& sorted_by(output, ord)
    &&& exists|perm: Seq<int>| stable_permutation(input, output, perm, ord)
}

/// Every input position is the source of some output position: a
/// permutation of positions misses none of them.
pub proof fn lemma_permutation_onto<T>(
    input: Seq<T>,
    output: Seq<T>,
    perm: Seq<int>,
    ord: spec_fn(T, T) -> int,
    k: int,
)
    requires
        stable_permutation(input, output, perm, ord),
        0 <= k < input.len(),
    ensures
        exists|t: int| 0 <= t < perm.len() && perm[t] == k,
{
    let n = input.len() as int;
    assert(perm.no_duplicates()) by {
        assert forall|i: int, j: int| 0 <= i < perm.len() && 0 <= j < perm.len() && i != j implies perm[i] != perm[j] by {
            if i < j {
                assert(perm[i] != perm[j]);
            } else {
                assert(perm[j] != perm[i]);
            }
        }
    }
    perm.unique_seq_to_set();
    vstd::set_lib::lemma_int_range(0, n);
    let range = vstd::set_lib::set_int_range(0, n);
    assert(perm.to_set().subset_of(range)) by {
        assert forall|x: int| perm.to_set().contains(x) implies range.contains(x) by {
            let t = choose|t: int| 0 <= t < perm.len() && perm[t] == x;
            assert(0 <= perm[t] < n);
        }
    }
    vstd::seq_lib::seq_to_set_is_finite(perm);
    vstd::set_lib::lemma_subset_equality(perm.to_set(), range);
    assert(range.contains(k));
    assert(perm.to_set().contains(k));
}

/// A stable sort holds exactly the elements of its input.
pub proof fn lemma_stable_sort_same_elements<T>(input: Seq<T>, output: Seq<T>, ord: spec_fn(T, T) -> int)
    requires
        is_stable_sort(input, output, ord),
    ensures
        output.len() == input.len(),
        forall|x: T| output.contains(x) <==> input.contains(x),
{
    let perm = choose|perm: Seq<int>| stable_permutation(input, output, perm, ord);
    assert forall|x: T| output.contains(x) <==> input.contains(x) by {
        if output.contains(x) {
            let t = choose|t: int| 0 <= t < output.len() && output[t] == x;
            assert(0 <= perm[t] < input.len() && input[perm[t]] == x);
        }
        if input.contains(x) {
            let k = choose|k: int| 0 <= k < input.len() && input[k] == x;
            lemma_permutation_onto(input, output, perm, ord, k);
            let t = choose|t: int| 0 <= t < perm.len() && perm[t] == k;
            assert(output[t] == x);
        }
    }
}

} // verus!
