//! Result ordering: options by score, highest first, ties in creation order.
use vstd::prelude::*;
use crate::options::{scores, tally_of, Tally};

verus! {

/// Whether option `a` is listed before option `b` in results: a higher score
/// first, and of equal scores the one created first.
pub open spec fn listed_before(s: Seq<u64>, a: int, b: int) -> bool {
    s[a] > s[b] || (s[a] == s[b] && a < b)
}

/// Whether `r` lists every option index of `s` once, in results order.
pub open spec fn is_results_order(s: Seq<u64>, r: Seq<usize>) -> bool {
    &&& r.len() == s.len()
    &&& forall|i: int| 0 <= i < r.len() ==> #[trigger] r[i] < s.len()
    &&& forall|x: usize| x < s.len() ==> #[trigger] r.contains(x)
    &&& forall|i: int, j: int|
        0 <= i < j < r.len() ==> listed_before(s, #[trigger] r[i] as int, #[trigger] r[j] as int)
}

/// Whether `r` is the option list `t` in results order.
pub open spec fn in_results_order(t: Tally, r: Tally) -> bool {
    exists|ord: Seq<usize>|
        is_results_order(scores(t), ord) && r == ord.map_values(|x: usize| t[x as int])
}

/// The option indices in results order.
pub fn results_order(s: &Vec<u64>) -> (r: Vec<usize>)
    ensures
        is_results_order(s@, r@),
{
    let n = s.len();
    let mut r: Vec<usize> = Vec::new();
    let mut k: usize = 0;
    while k < n
        invariant
            n == s@.len(),
            k <= n,
            r@.len() == k,
            forall|i: int| 0 <= i < r@.len() ==> #[trigger] r@[i] < k,
            forall|x: usize| x < k ==> #[trigger] r@.contains(x),
            forall|i: int, j: int|
                0 <= i < j < r@.len() ==> listed_before(s@, #[trigger] r@[i] as int, #[trigger] r@[j] as int),
        decreases n - k,
    {
        let mut p: usize = 0;
        while p < r.len() && s[r[p]] >= s[k]
            invariant
                n == s@.len(),
                k < n,
                p <= r@.len(),
                forall|i: int| 0 <= i < r@.len() ==> #[trigger] r@[i] < k,
                forall|q: int| 0 <= q < p ==> s@[#[trigger] r@[q] as int] >= s@[k as int],
            decreases r@.len() - p,
        {
            p = p + 1;
        }
        let ghost old_r = r@;
        r.insert(p, k);
        proof {
            assert(r@ == old_r.insert(p as int, k));
            assert forall|i: int| 0 <= i < r@.len() implies #[trigger] r@[i] < k + 1 by {
                if i < p {
                    assert(r@[i] == old_r[i]);
                } else if i > p {
                    assert(r@[i] == old_r[i - 1]);
                }
            }
            assert forall|x: usize| x < k + 1 implies #[trigger] r@.contains(x) by {
                if x == k {
                    assert(r@[p as int] == k);
                } else {
                    assert(old_r.contains(x));
                    let q = choose|q: int| 0 <= q < old_r.len() && old_r[q] == x;
                    if q < p {
                        assert(r@[q] == old_r[q]);
                    } else {
                        assert(r@[q + 1] == old_r[q]);
                    }
                }
            }
            assert forall|i: int, j: int| 0 <= i < j < r@.len() implies listed_before(
                s@,
                #[trigger] r@[i] as int,
                #[trigger] r@[j] as int,
            ) by {
                if j < p {
                    assert(r@[i] == old_r[i] && r@[j] == old_r[j]);
                } else if j == p {
                    assert(r@[i] == old_r[i]);
                } else if i < p {
                    assert(r@[i] == old_r[i] && r@[j] == old_r[j - 1]);
                } else if i == p {
                    assert(r@[j] == old_r[j - 1]);
                    assert(s@[old_r[p as int] as int] < s@[k as int]);
                    if j - 1 > p {
                        assert(listed_before(s@, old_r[p as int] as int, old_r[j - 1] as int));
                    }
                } else {
                    assert(r@[i] == old_r[i - 1] && r@[j] == old_r[j - 1]);
                }
            }
        }
        k = k + 1;
    }
    r
}

/// The option list in results order.
pub fn sorted_options(options: &Vec<(String, u64)>) -> (r: Vec<(String, u64)>)
    ensures
        in_results_order(tally_of(options@), tally_of(r@)),
{
    let mut s: Vec<u64> = Vec::new();
    let mut i: usize = 0;
    while i < options.len()
        invariant
            i <= options.len(),
            s@.len() == i,
            forall|k: int| 0 <= k < i ==> #[trigger] s@[k] == options@[k].1,
        decreases options.len() - i,
    {
        s.push(options[i].1);
        i = i + 1;
    }
    proof {
        assert(s@ =~= scores(tally_of(options@)));
    }
    let ord = results_order(&s);
    let mut r: Vec<(String, u64)> = Vec::new();
    let mut j: usize = 0;
    while j < ord.len()
        invariant
            is_results_order(s@, ord@),
            s@ == scores(tally_of(options@)),
            j <= ord.len(),
            r@.len() == j,
            forall|k: int| 0 <= k < j ==> #[trigger] tally_of(r@)[k] == tally_of(options@)[ord@[k] as int],
        decreases ord.len() - j,
    {
        let x = ord[j];
        let label = options[x].0.clone();
        let ghost before = r@;
        r.push((label, options[x].1));
        proof {
            assert forall|k: int| 0 <= k < j implies #[trigger] tally_of(r@)[k] == tally_of(before)[k] by {
                assert(r@[k] == before[k]);
            }
            assert(tally_of(r@)[j as int] == tally_of(options@)[x as int]);
        }
        j = j + 1;
    }
    proof {
        let t = tally_of(options@);
        assert(tally_of(r@) =~= ord@.map_values(|x: usize| t[x as int]));
    }
    r
}

/// Results order is unique: two index lists that both list every option once
/// in results order are the same list.
pub proof fn lemma_results_order_unique(s: Seq<u64>, r1: Seq<usize>, r2: Seq<usize>)
    requires
        is_results_order(s, r1),
        is_results_order(s, r2),
    ensures
        r1 == r2,
{
    lemma_results_order_agree_from(s, r1, r2, 0);
    assert(r1 =~= r2);
}

proof fn lemma_results_order_agree_from(s: Seq<u64>, r1: Seq<usize>, r2: Seq<usize>, i: int)
    requires
        is_results_order(s, r1),
        is_results_order(s, r2),
        0 <= i <= r1.len(),
        forall|j: int| 0 <= j < i ==> r1[j] == r2[j],
    ensures
        forall|j: int| 0 <= j < r1.len() ==> r1[j] == r2[j],
    decreases r1.len() - i,
{
    if i < r1.len() {
        let a = r1[i];
        let b = r2[i];
        if a != b {
            assert(r1[i] < s.len() && r2[i] < s.len());
            assert(r2.contains(a));
            let j2 = choose|j: int| 0 <= j < r2.len() && r2[j] == a;
            assert(r1.contains(b));
            let k1 = choose|j: int| 0 <= j < r1.len() && r1[j] == b;
            if j2 < i {
                assert(r1[j2] == a);
                assert(listed_before(s, r1[j2] as int, r1[i] as int));
            }
            if k1 < i {
                assert(r2[k1] == b);
                assert(listed_before(s, r2[k1] as int, r2[i] as int));
            }
            assert(listed_before(s, r2[i] as int, r2[j2] as int));
            assert(listed_before(s, r1[i] as int, r1[k1] as int));
        }
        lemma_results_order_agree_from(s, r1, r2, i + 1);
    }
}

/// Results are deterministic: an option list has one results listing.
pub proof fn lemma_results_deterministic(t: Tally, r1: Tally, r2: Tally)
    requires
        in_results_order(t, r1),
        in_results_order(t, r2),
    ensures
        r1 == r2,
{
    let o1 = choose|ord: Seq<usize>|
        is_results_order(scores(t), ord) && r1 == ord.map_values(|x: usize| t[x as int]);
    let o2 = choose|ord: Seq<usize>|
        is_results_order(scores(t), ord) && r2 == ord.map_values(|x: usize| t[x as int]);
    lemma_results_order_unique(scores(t), o1, o2);
}

} // verus!
