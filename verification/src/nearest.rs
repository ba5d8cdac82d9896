use vstd::prelude::*;
use vstd::set_lib::*;
use vstd::relations::injective_on;

verus! {

broadcast use vstd::seq_lib::group_seq_properties;

/// Row `a` comes before row `b` in nearest-first order: its distance key is smaller,
/// or the keys are equal and `a` is the earlier row.
pub open spec fn precedes(keys: Seq<u32>, a: int, b: int) -> bool {
    keys[a] < keys[b] || (keys[a] == keys[b] && a < b)
}

/// The rows of `keys` that come before row `i`.
pub open spec fn rows_before(keys: Seq<u32>, i: int) -> Set<int> {
    set_int_range(0, keys.len() as int).filter(|j: int| precedes(keys, j, i))
}

/// Number of rows that come before row `i` in nearest-first order.
pub open spec fn rank(keys: Seq<u32>, i: int) -> nat {
    rows_before(keys, i).len()
}

/// The `k` nearest rows: those with fewer than `k` rows before them.
pub open spec fn nearest_set(keys: Seq<u32>, k: nat) -> Set<int> {
    set_int_range(0, keys.len() as int).filter(|i: int| rank(keys, i) < k)
}

/// Number of rows among the `k` nearest whose label byte marks fraud (is nonzero).
pub open spec fn nearest_fraud_count(keys: Seq<u32>, labels: Seq<u8>, k: nat) -> nat {
    nearest_set(keys, k).filter(|i: int| labels[i] != 0).len()
}

/// `min(k, n)`.
pub open spec fn limit_of(k: int, n: int) -> int {
    if k < n {
        k
    } else {
        n
    }
}

/// Every member of `top` comes before every row below `t` that is not a member.
pub open spec fn closed_below(keys: Seq<u32>, top: Seq<usize>, t: int) -> bool {
    forall|a: int, b: int|
        #![trigger top[a], top.contains(b as usize)]
        0 <= a < top.len() && 0 <= b < t && !top.contains(b as usize) ==> precedes(
            keys,
            top[a] as int,
            b,
        )
}

/// The members of `top` as a set of row numbers.
pub open spec fn as_rows(top: Seq<usize>) -> Set<int> {
    top.map_values(|u: usize| u as int).to_set()
}

proof fn lemma_as_rows(top: Seq<usize>)
    requires
        top.no_duplicates(),
    ensures
        as_rows(top).finite(),
        as_rows(top).len() == top.len(),
        forall|x: int|
            #[trigger] as_rows(top).contains(x) <==> (0 <= x <= usize::MAX && top.contains(
                x as usize,
            )),
{
    let s = top.map_values(|u: usize| u as int);
    assert(s.no_duplicates()) by {
        assert forall|i: int, j: int| 0 <= i < s.len() && 0 <= j < s.len() && i != j implies s[i]
            != s[j] by {
            assert(top[i] != top[j]);
        }
    }
    s.unique_seq_to_set();
    assert forall|x: int| #[trigger]
        as_rows(top).contains(x) <==> (0 <= x <= usize::MAX && top.contains(x as usize)) by {
        if as_rows(top).contains(x) {
            let j = choose|j: int| 0 <= j < s.len() && s[j] == x;
            assert(top[j] == x as usize);
        }
        if 0 <= x <= usize::MAX && top.contains(x as usize) {
            let j = choose|j: int| 0 <= j < top.len() && top[j] == x as usize;
            assert(s[j] == x);
        }
    }
}

/// A row has fewer rows before it than there are rows.
pub proof fn lemma_rank_below_len(keys: Seq<u32>, i: int)
    requires
        0 <= i < keys.len(),
    ensures
        rank(keys, i) < keys.len(),
{
    let n = keys.len() as int;
    lemma_int_range(0, n);
    let r = set_int_range(0, n);
    r.lemma_len_filter(|j: int| precedes(keys, j, i));
    assert(rows_before(keys, i).subset_of(r.remove(i)));
    lemma_len_subset(rows_before(keys, i), r.remove(i));
}

/// Rows that come earlier have smaller ranks.
pub proof fn lemma_rank_monotonic(keys: Seq<u32>, i: int, j: int)
    requires
        0 <= i < keys.len(),
        0 <= j < keys.len(),
        precedes(keys, j, i),
    ensures
        rank(keys, j) < rank(keys, i),
{
    let n = keys.len() as int;
    lemma_int_range(0, n);
    let r = set_int_range(0, n);
    r.lemma_len_filter(|x: int| precedes(keys, x, i));
    assert(rows_before(keys, j).subset_of(rows_before(keys, i).remove(j)));
    lemma_len_subset(rows_before(keys, j), rows_before(keys, i).remove(j));
}

/// A set of `limit` distinct rows, each before every row left out, is exactly the set
/// of rows with fewer than `limit` rows before them.
proof fn lemma_closed_set_is_nearest(keys: Seq<u32>, top: Seq<usize>)
    requires
        keys.len() <= usize::MAX,
        top.no_duplicates(),
        top.len() <= keys.len(),
        forall|j: int| 0 <= j < top.len() ==> top[j] < keys.len(),
        closed_below(keys, top, keys.len() as int),
    ensures
        forall|i: int|
            0 <= i < keys.len() ==> (top.contains(i as usize) <==> rank(keys, i) < top.len()),
{
    let n = keys.len() as int;
    let s = as_rows(top);
    lemma_as_rows(top);
    lemma_int_range(0, n);
    let r = set_int_range(0, n);
    assert forall|i: int| 0 <= i < n implies (top.contains(i as usize) <==> rank(keys, i)
        < top.len()) by {
        r.lemma_len_filter(|j: int| precedes(keys, j, i));
        let before = rows_before(keys, i);
        if top.contains(i as usize) {
            assert forall|j: int| before.contains(j) implies s.remove(i).contains(j) by {
                if !top.contains(j as usize) {
                    let a = choose|a: int| 0 <= a < top.len() && top[a] == i as usize;
                    assert(precedes(keys, top[a] as int, j));
                }
            }
            lemma_len_subset(before, s.remove(i));
        } else {
            assert forall|x: int| s.contains(x) implies before.contains(x) by {
                let a = choose|a: int| 0 <= a < top.len() && top[a] == x as usize;
                assert(precedes(keys, top[a] as int, i));
            }
            lemma_len_subset(s, before);
        }
    }
}

/// The nearest rows are never farther than a row left out: each of the `k` nearest
/// rows has a key no larger than any other row's, and on equal keys it is the earlier row.
pub proof fn law_nearest_not_farther(keys: Seq<u32>, k: nat, i: int, j: int)
    requires
        0 <= i < keys.len(),
        0 <= j < keys.len(),
        nearest_set(keys, k).contains(i),
        !nearest_set(keys, k).contains(j),
    ensures
        keys[i] <= keys[j],
        keys[i] == keys[j] ==> i < j,
{
    if precedes(keys, j, i) {
        lemma_rank_monotonic(keys, i, j);
        assert(nearest_set(keys, k).contains(j));
    }
}

/// With no row labelled fraud, no row of the nearest counts as a hit.
pub proof fn law_no_fraud_no_hits(keys: Seq<u32>, labels: Seq<u8>, k: nat)
    requires
        forall|i: int| 0 <= i < labels.len() ==> labels[i] == 0,
        keys.len() == labels.len(),
    ensures
        nearest_fraud_count(keys, labels, k) == 0,
{
    assert(nearest_set(keys, k).filter(|i: int| labels[i] != 0) =~= Set::empty());
}

proof fn lemma_nearest_finite(keys: Seq<u32>, k: nat)
    ensures
        nearest_set(keys, k).finite(),
{
    lemma_int_range(0, keys.len() as int);
    set_int_range(0, keys.len() as int).lemma_len_filter(|i: int| rank(keys, i) < k);
}

/// Going from the `k` to the `k + 1` nearest rows adds at most one row, so the
/// fraud count grows by zero or one.
pub proof fn law_hits_grow_by_at_most_one(keys: Seq<u32>, labels: Seq<u8>, k: nat)
    ensures
        nearest_fraud_count(keys, labels, k) <= nearest_fraud_count(keys, labels, k + 1),
        nearest_fraud_count(keys, labels, k + 1) <= nearest_fraud_count(keys, labels, k) + 1,
{
    let f = |i: int| labels[i] != 0;
    let a = nearest_set(keys, k).filter(f);
    let b = nearest_set(keys, k + 1).filter(f);
    lemma_nearest_finite(keys, k);
    lemma_nearest_finite(keys, k + 1);
    nearest_set(keys, k).lemma_len_filter(f);
    nearest_set(keys, k + 1).lemma_len_filter(f);
    assert(a.subset_of(b));
    lemma_len_subset(a, b);
    if exists|x: int| b.contains(x) && !a.contains(x) {
        let x = choose|x: int| b.contains(x) && !a.contains(x);
        assert forall|y: int| b.contains(y) implies a.insert(x).contains(y) by {
            if !a.contains(y) && y != x {
                if precedes(keys, x, y) {
                    lemma_rank_monotonic(keys, y, x);
                } else {
                    lemma_rank_monotonic(keys, x, y);
                }
            }
        }
        lemma_len_subset(b, a.insert(x));
    } else {
        assert(b.subset_of(a));
        lemma_len_subset(b, a);
    }
}

/// The fraud count does not depend on the order of the rows: when the rows of one
/// store are those of another reordered by the permutation `p` (with inverse `q`), and
/// no two rows are at the same distance, both give the same count.
pub proof fn law_count_ignores_row_order(
    keys1: Seq<u32>,
    labels1: Seq<u8>,
    keys2: Seq<u32>,
    labels2: Seq<u8>,
    p: spec_fn(int) -> int,
    q: spec_fn(int) -> int,
    k: nat,
)
    requires
        keys1.len() == labels1.len(),
        keys2.len() == keys1.len(),
        labels2.len() == keys1.len(),
        forall|i: int|
            0 <= i < keys1.len() ==> 0 <= #[trigger] p(i) < keys1.len() && q(p(i)) == i,
        forall|i: int|
            0 <= i < keys1.len() ==> 0 <= #[trigger] q(i) < keys1.len() && p(q(i)) == i,
        forall|i: int|
            0 <= i < keys1.len() ==> keys2[i] == keys1[p(i)] && labels2[i] == labels1[p(i)],
        forall|i: int, j: int|
            0 <= i < keys1.len() && 0 <= j < keys1.len() && i != j ==> keys1[i] != keys1[j],
    ensures
        nearest_fraud_count(keys2, labels2, k) == nearest_fraud_count(keys1, labels1, k),
{
    let n = keys1.len() as int;
    lemma_int_range(0, n);
    let r = set_int_range(0, n);
    assert forall|i: int| 0 <= i < n implies #[trigger] rank(keys2, i) == rank(keys1, p(i)) by {
        let b2 = rows_before(keys2, i);
        let b1 = rows_before(keys1, p(i));
        r.lemma_len_filter(|j: int| precedes(keys2, j, i));
        assert forall|j: int| b2.contains(j) implies b1.contains(p(j)) by {
            if j != i {
                assert(p(j) != p(i));
            }
        }
        assert forall|x: int| b1.contains(x) implies b2.map(p).contains(x) by {
            assert(q(x) != i);
            assert(b2.contains(q(x)));
        }
        assert(b2.map(p) =~= b1);
        assert(injective_on(p, b2));
        lemma_map_size(b2, b1, p);
    }
    let f1 = |i: int| labels1[i] != 0;
    let f2 = |i: int| labels2[i] != 0;
    let c1 = nearest_set(keys1, k).filter(f1);
    let c2 = nearest_set(keys2, k).filter(f2);
    lemma_nearest_finite(keys2, k);
    nearest_set(keys2, k).lemma_len_filter(f2);
    assert forall|x: int| c1.contains(x) implies c2.map(p).contains(x) by {
        assert(rank(keys2, q(x)) == rank(keys1, p(q(x))));
        assert(c2.contains(q(x)));
    }
    assert forall|j: int| c2.contains(j) implies c1.contains(p(j)) by {
        assert(rank(keys2, j) == rank(keys1, p(j)));
    }
    assert(c2.map(p) =~= c1);
    assert(injective_on(p, c2));
    lemma_map_size(c2, c1, p);
}

/// Distinct rows have distinct ranks, and every rank is below the number of rows.
proof fn lemma_rank_injective(keys: Seq<u32>)
    ensures
        injective_on(|i: int| rank(keys, i) as int, set_int_range(0, keys.len() as int)),
        forall|i: int| 0 <= i < keys.len() ==> #[trigger] rank(keys, i) < keys.len(),
{
    assert forall|i: int| 0 <= i < keys.len() implies #[trigger] rank(keys, i) < keys.len() by {
        lemma_rank_below_len(keys, i);
    }
    assert forall|i: int, j: int|
        set_int_range(0, keys.len() as int).contains(i) && set_int_range(
            0,
            keys.len() as int,
        ).contains(j) && rank(keys, i) == rank(keys, j) implies i == j by {
        if i != j {
            if precedes(keys, i, j) {
                lemma_rank_monotonic(keys, j, i);
            } else {
                lemma_rank_monotonic(keys, i, j);
            }
        }
    }
}

/// There are exactly `min(k, n)` nearest rows among `n` rows.
pub proof fn law_nearest_set_size(keys: Seq<u32>, k: nat)
    ensures
        nearest_set(keys, k).len() == (if k < keys.len() {
            k as int
        } else {
            keys.len() as int
        }),
{
    let n = keys.len() as int;
    let r = set_int_range(0, n);
    let f = |i: int| rank(keys, i) as int;
    lemma_int_range(0, n);
    lemma_rank_injective(keys);
    // The ranks of all rows are exactly 0 .. n.
    r.lemma_map_finite(f);
    lemma_map_size(r, r.map(f), f);
    assert(r.map(f).subset_of(r));
    lemma_subset_equality(r.map(f), r);
    // The ranks of the nearest rows are exactly 0 .. min(k, n).
    let m = if (k as int) < n {
        k as int
    } else {
        n
    };
    let near = nearest_set(keys, k);
    lemma_nearest_finite(keys, k);
    assert forall|x: int| set_int_range(0, m).contains(x) implies near.map(f).contains(x) by {
        assert(r.map(f).contains(x));
        let i = choose|i: int| r.contains(i) && f(i) == x;
        assert(near.contains(i));
    }
    assert(near.map(f) =~= set_int_range(0, m));
    assert(injective_on(f, near));
    lemma_map_size(near, set_int_range(0, m), f);
    lemma_int_range(0, m);
}

/// When every row is labelled fraud, every one of the `min(k, n)` nearest rows counts.
pub proof fn law_all_fraud_all_hits(keys: Seq<u32>, labels: Seq<u8>, k: nat)
    requires
        forall|i: int| 0 <= i < labels.len() ==> labels[i] != 0,
        keys.len() == labels.len(),
    ensures
        nearest_fraud_count(keys, labels, k) == (if k < keys.len() {
            k as int
        } else {
            keys.len() as int
        }),
{
    assert(nearest_set(keys, k).filter(|i: int| labels[i] != 0) =~= nearest_set(keys, k));
    law_nearest_set_size(keys, k);
}

/// Position in `top` of the member that comes last in nearest-first order.
fn last_position(keys: &[u32], top: &Vec<usize>) -> (p: usize)
    requires
        top@.len() > 0,
        top@.no_duplicates(),
        forall|j: int| 0 <= j < top@.len() ==> top@[j] < keys@.len(),
    ensures
        p < top@.len(),
        forall|q: int|
            0 <= q < top@.len() && q != p ==> precedes(keys@, top@[q] as int, top@[p as int] as int),
{
    let mut best: usize = 0;
    let mut q: usize = 1;
    while q < top.len()
        invariant
            1 <= q <= top@.len(),
            best < q,
            top@.no_duplicates(),
            forall|j: int| 0 <= j < top@.len() ==> top@[j] < keys@.len(),
            forall|x: int|
                0 <= x < q && x != best ==> precedes(keys@, top@[x] as int, top@[best as int] as int),
        decreases top@.len() - q,
    {
        let cand = top[q];
        let cur = top[best];
        if keys[cand] > keys[cur] || (keys[cand] == keys[cur] && cand > cur) {
            best = q;
        } else {
            assert(top@[q as int] != top@[best as int]);
        }
        q += 1;
    }
    best
}

/// Whether `row` is a member of `top`.
fn holds_row(top: &Vec<usize>, row: usize) -> (r: bool)
    ensures
        r == top@.contains(row),
{
    let mut j: usize = 0;
    while j < top.len()
        invariant
            j <= top@.len(),
            forall|x: int| 0 <= x < j ==> top@[x] != row,
        decreases top@.len() - j,
    {
        if top[j] == row {
            return true;
        }
        j += 1;
    }
    false
}

/// The `k` nearest rows, given each row's distance key (a smaller key is nearer):
/// `min(k, rows)` distinct rows, each nearer than, or as near as and earlier than,
/// every row left out. Rows are scanned once while the nearest ones seen so far are kept.
pub fn nearest_rows(keys: &[u32], k: usize) -> (top: Vec<usize>)
    ensures
        top@.len() == limit_of(k as int, keys@.len() as int),
        top@.no_duplicates(),
        forall|j: int| 0 <= j < top@.len() ==> top@[j] < keys@.len(),
        forall|i: int|
            0 <= i < keys@.len() ==> (top@.contains(i as usize) <==> nearest_set(
                keys@,
                k as nat,
            ).contains(i)),
        nearest_set(keys@, k as nat).len() == limit_of(k as int, keys@.len() as int),
{
    let n = keys.len();
    let limit = if k < n {
        k
    } else {
        n
    };
    let mut top: Vec<usize> = Vec::new();
    let mut t: usize = 0;
    while t < n
        invariant
            n == keys@.len(),
            limit == limit_of(k as int, n as int),
            t <= n,
            top@.len() == limit_of(t as int, limit as int),
            top@.len() < limit ==> forall|j: int| 0 <= j < top@.len() ==> top@[j] == j,
            top@.no_duplicates(),
            forall|j: int| 0 <= j < top@.len() ==> top@[j] < t,
            closed_below(keys@, top@, t as int),
        decreases n - t,
    {
        let ghost old_top = top@;
        if top.len() < limit {
            top.push(t);
            proof {
                assert forall|j: int| 0 <= j < top@.len() implies top@[j] == j by {}
                assert forall|b: int| 0 <= b < t + 1 implies #[trigger] top@.contains(b as usize) by {
                    assert(top@[b] == b as usize);
                }
            }
        } else if limit > 0 {
            let p = last_position(keys, &top);
            let m = top[p];
            if keys[t] < keys[m] {
                top.set(p, t);
                proof {
                    assert forall|a: int, b: int|
                        0 <= a < top@.len() && 0 <= b < t + 1 && !top@.contains(
                            b as usize,
                        ) implies precedes(keys@, top@[a] as int, b) by {
                        assert(top@[p as int] == t);
                        if !old_top.contains(b as usize) {
                            assert(b < t);
                            assert(precedes(keys@, old_top[p as int] as int, b));
                            if a != p {
                                assert(precedes(keys@, old_top[a] as int, b));
                            }
                        } else {
                            let c = choose|c: int| 0 <= c < old_top.len() && old_top[c] == b as usize;
                            if c != p {
                                assert(top@[c] == b as usize);
                            }
                        }
                    }
                    assert forall|i: int, j: int|
                        0 <= i < top@.len() && 0 <= j < top@.len() && i != j implies top@[i]
                        != top@[j] by {
                        if i != p && j != p {
                            assert(old_top[i] != old_top[j]);
                        }
                    }
                }
            } else {
                proof {
                    assert forall|a: int, b: int|
                        0 <= a < top@.len() && 0 <= b < t + 1 && !top@.contains(
                            b as usize,
                        ) implies precedes(keys@, top@[a] as int, b) by {
                        if b == t {
                            if a != p {
                                assert(precedes(keys@, top@[a] as int, m as int));
                            }
                        }
                    }
                }
            }
        }
        t += 1;
    }
    proof {
        lemma_closed_set_is_nearest(keys@, top@);
        let near = nearest_set(keys@, k as nat);
        assert forall|i: int| 0 <= i < n implies (top@.contains(i as usize) <==> near.contains(i)) by {
            lemma_rank_below_len(keys@, i);
        }
        lemma_as_rows(top@);
        assert(near =~= as_rows(top@));
    }
    top
}

/// Number of rows among the `k` nearest, by `keys`, whose label byte is nonzero.
pub fn count_nearest_fraud(keys: &[u32], labels: &[u8], k: usize) -> (hits: usize)
    requires
        keys@.len() == labels@.len(),
    ensures
        hits == nearest_fraud_count(keys@, labels@, k as nat),
        hits <= limit_of(k as int, keys@.len() as int),
{
    let top = nearest_rows(keys, k);
    let n = keys.len();
    let ghost near = nearest_set(keys@, k as nat);
    let ghost fraud = |i: int| labels@[i] != 0;
    proof {
        lemma_int_range(0, n as int);
        set_int_range(0, n as int).lemma_len_filter(|i: int| rank(keys@, i) < k as nat);
        assert(near.filter(fraud).intersect(set_int_range(0, 0)) =~= Set::empty());
    }
    let mut hits: usize = 0;
    let mut i: usize = 0;
    while i < n
        invariant
            n == keys@.len(),
            n == labels@.len(),
            i <= n,
            near == nearest_set(keys@, k as nat),
            fraud == (|i: int| labels@[i] != 0),
            forall|x: int|
                0 <= x < keys@.len() ==> (top@.contains(x as usize) <==> near.contains(x)),
            near.finite(),
            near.len() == limit_of(k as int, keys@.len() as int),
            hits == near.filter(fraud).intersect(set_int_range(0, i as int)).len(),
            hits <= limit_of(k as int, keys@.len() as int),
        decreases n - i,
    {
        let ghost before = near.filter(fraud).intersect(set_int_range(0, i as int));
        let ghost after = near.filter(fraud).intersect(set_int_range(0, i + 1));
        proof {
            lemma_int_range(0, i as int);
            lemma_len_subset(before, set_int_range(0, i as int));
        }
        if labels[i] != 0 && holds_row(&top, i) {
            proof {
                assert(after =~= before.insert(i as int));
                near.lemma_len_filter(fraud);
                lemma_len_subset(after, near.filter(fraud));
            }
            hits += 1;
        } else {
            assert(after =~= before);
        }
        i += 1;
    }
    proof {
        assert(near.filter(fraud).intersect(set_int_range(0, n as int)) =~= near.filter(fraud));
    }
    hits
}

} // verus!
