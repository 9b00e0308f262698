//! Sequences of indices: the few notions that the graph and the generator
//! share, with the executable helpers that compute them.

use vstd::prelude::*;

verus! {

/// Whether every member of `s` is below `n`.
pub open spec fn all_below(s: Seq<usize>, n: int) -> bool {
    forall|i: int| 0 <= i < s.len() ==> s[i] < n
}

/// Whether each member of `s` is greater than the one before it.
pub open spec fn increasing(s: Seq<usize>) -> bool {
    forall|i: int, j: int| 0 <= i < j < s.len() ==> s[i] < s[j]
}

/// The sequences `f(0)`, `f(1)`, up to `f(n - 1)`, one after the other.
pub open spec fn concat_upto<T>(n: int, f: spec_fn(int) -> Seq<T>) -> Seq<T>
    decreases n,
{
    if n <= 0 {
        Seq::empty()
    } else {
        concat_upto(n - 1, f) + f(n - 1)
    }
}

/// Those of the first `n` members of `s` that `keep` holds of, in their
/// order.
pub open spec fn kept(s: Seq<usize>, keep: spec_fn(usize) -> bool, n: int) -> Seq<usize>
    decreases n,
{
    if n <= 0 {
        Seq::empty()
    } else if keep(s[n - 1]) {
        kept(s, keep, n - 1).push(s[n - 1])
    } else {
        kept(s, keep, n - 1)
    }
}

/// The sequence `s` with `x` put before the members at its end that are
/// greater than `x`.
pub open spec fn insert_ordered(s: Seq<usize>, x: usize) -> Seq<usize>
    decreases s.len(),
{
    if s.len() > 0 && s.last() > x {
        insert_ordered(s.drop_last(), x).push(s.last())
    } else {
        s.push(x)
    }
}

/// What is kept of an increasing sequence is increasing, and holds exactly
/// the members that `keep` holds of.
pub proof fn lemma_kept(s: Seq<usize>, keep: spec_fn(usize) -> bool, n: int)
    requires
        0 <= n <= s.len(),
    ensures
        kept(s, keep, n).len() <= n,
        forall|k: int|
            0 <= k < kept(s, keep, n).len() ==> keep(#[trigger] kept(s, keep, n)[k]) && exists|
                j: int,
            |
                0 <= j < n && s[j] == kept(s, keep, n)[k],
        forall|j: int|
            0 <= j < n && keep(#[trigger] s[j]) ==> kept(s, keep, n).contains(s[j]),
        increasing(s) ==> increasing(kept(s, keep, n)),
    decreases n,
{
    let r = kept(s, keep, n);
    if n > 0 {
        lemma_kept(s, keep, n - 1);
        let q = kept(s, keep, n - 1);
        assert forall|k: int| 0 <= k < r.len() implies keep(#[trigger] r[k]) && exists|j: int|
            0 <= j < n && s[j] == r[k] by {
            if keep(s[n - 1]) && k == q.len() {
                assert(s[n - 1] == r[k]);
            } else {
                assert(q[k] == r[k]);
                let j = choose|j: int| 0 <= j < n - 1 && s[j] == q[k];
                assert(0 <= j < n && s[j] == r[k]);
            }
        }
        assert forall|j: int| 0 <= j < n && keep(#[trigger] s[j]) implies r.contains(s[j]) by {
            if j == n - 1 {
                assert(r[q.len() as int] == s[j]);
            } else {
                assert(q.contains(s[j]));
                let k = choose|k: int| 0 <= k < q.len() && q[k] == s[j];
                assert(r[k] == s[j]);
            }
        }
        if increasing(s) {
            assert forall|i: int, j: int| 0 <= i < j < r.len() implies r[i] < r[j] by {
                if j == q.len() {
                    let k = choose|k: int| 0 <= k < n - 1 && s[k] == q[i];
                    assert(s[k] < s[n - 1]);
                } else {
                    assert(q[i] < q[j]);
                }
            }
        }
    }
}

/// Putting a new member into an increasing sequence leaves it increasing,
/// and adds that member only.
pub proof fn lemma_insert_ordered(s: Seq<usize>, x: usize)
    requires
        increasing(s),
        !s.contains(x),
    ensures
        increasing(insert_ordered(s, x)),
        insert_ordered(s, x).len() == s.len() + 1,
        insert_ordered(s, x).contains(x),
        forall|k: int|
            0 <= k < s.len() + 1 ==> (#[trigger] insert_ordered(s, x)[k]) == x || s.contains(
                insert_ordered(s, x)[k],
            ),
        forall|j: int| 0 <= j < s.len() ==> insert_ordered(s, x).contains(#[trigger] s[j]),
    decreases s.len(),
{
    let r = insert_ordered(s, x);
    if s.len() > 0 && s.last() > x {
        let front = s.drop_last();
        let q = insert_ordered(front, x);
        assert(increasing(front));
        assert(!front.contains(x)) by {
            if front.contains(x) {
                let k = choose|k: int| 0 <= k < front.len() && front[k] == x;
                assert(s[k] == x);
            }
        }
        lemma_insert_ordered(front, x);
        assert(r.contains(x)) by {
            let k = choose|k: int| 0 <= k < q.len() && q[k] == x;
            assert(r[k] == x);
        }
        assert forall|k: int| 0 <= k < s.len() + 1 implies (#[trigger] r[k]) == x || s.contains(
            r[k],
        ) by {
            if k == q.len() {
                assert(s[s.len() - 1] == r[k]);
            } else {
                assert(q[k] == r[k]);
                if q[k] != x {
                    let j = choose|j: int| 0 <= j < front.len() && front[j] == q[k];
                    assert(s[j] == r[k]);
                }
            }
        }
        assert forall|j: int| 0 <= j < s.len() implies r.contains(#[trigger] s[j]) by {
            if j == s.len() - 1 {
                assert(r[q.len() as int] == s[j]);
            } else {
                assert(front[j] == s[j]);
                assert(q.contains(front[j]));
                let k = choose|k: int| 0 <= k < q.len() && q[k] == s[j];
                assert(r[k] == s[j]);
            }
        }
        assert forall|i: int, j: int| 0 <= i < j < r.len() implies r[i] < r[j] by {
            if j == q.len() {
                assert(q[i] == r[i]);
                if q[i] != x {
                    let k = choose|k: int| 0 <= k < front.len() && front[k] == q[i];
                    assert(s[k] < s[s.len() - 1]);
                }
            } else {
                assert(q[i] < q[j]);
            }
        }
    } else {
        assert(r[s.len() as int] == x);
        assert forall|k: int| 0 <= k < s.len() + 1 implies (#[trigger] r[k]) == x || s.contains(
            r[k],
        ) by {
            if k < s.len() {
                assert(s[k] == r[k]);
            }
        }
        assert forall|j: int| 0 <= j < s.len() implies r.contains(#[trigger] s[j]) by {
            assert(r[j] == s[j]);
        }
        assert forall|i: int, j: int| 0 <= i < j < r.len() implies r[i] < r[j] by {
            if j == s.len() {
                assert(s[i] <= s[s.len() - 1]);
                assert(s.contains(s[i]));
            }
        }
    }
}

/// Where every member from `pos` on is greater than `x`, and the one before
/// `pos` is not, `x` is put at `pos`.
pub proof fn lemma_insert_ordered_at(s: Seq<usize>, x: usize, pos: int)
    requires
        0 <= pos <= s.len(),
        forall|i: int| pos <= i < s.len() ==> s[i] > x,
        pos > 0 ==> s[pos - 1] <= x,
    ensures
        insert_ordered(s, x) == s.insert(pos, x),
    decreases s.len() - pos,
{
    if pos < s.len() {
        lemma_insert_ordered_at(s.drop_last(), x, pos);
        assert(s.drop_last().insert(pos, x).push(s.last()) =~= s.insert(pos, x));
    } else {
        assert(s.push(x) =~= s.insert(pos, x));
    }
}

/// Whether `x` is a member of `v`.
pub fn contains(v: &Vec<usize>, x: usize) -> (b: bool)
    ensures
        b == v@.contains(x),
{
    let mut i: usize = 0;
    while i < v.len()
        invariant
            i <= v.len(),
            forall|j: int| 0 <= j < i ==> v@[j] != x,
        decreases v.len() - i,
    {
        if v[i] == x {
            return true;
        }
        i += 1;
    }
    false
}

/// Puts `x` into `v`, before the members at its end that are greater.
pub fn insert_in_order(v: &mut Vec<usize>, x: usize)
    ensures
        final(v)@ == insert_ordered(old(v)@, x),
{
    let mut pos: usize = v.len();
    while pos > 0 && v[pos - 1] > x
        invariant
            pos <= v.len(),
            v@ == old(v)@,
            forall|i: int| pos <= i < v.len() ==> v@[i] > x,
        decreases pos,
    {
        pos -= 1;
    }
    proof {
        lemma_insert_ordered_at(v@, x, pos as int);
    }
    v.insert(pos, x);
}

/// Whether every member of `v` is below `n`.
pub fn is_all_below(v: &Vec<usize>, n: usize) -> (b: bool)
    ensures
        b == all_below(v@, n as int),
{
    let mut i: usize = 0;
    while i < v.len()
        invariant
            i <= v.len(),
            forall|j: int| 0 <= j < i ==> v@[j] < n,
        decreases v.len() - i,
    {
        if v[i] >= n {
            return false;
        }
        i += 1;
    }
    true
}

} // verus!
