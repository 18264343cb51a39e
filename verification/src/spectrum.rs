//! Spectral statistics: eigenvalues put in ascending order and paired off
//! into the gaps between neighbours.
use vstd::prelude::*;
use crate::binary64::{is_nan, order_key, spec_is_nan, spec_order_key};
use crate::error::RmtError;

verus! {

/// No item is followed, anywhere later, by one with a smaller key.
pub open spec fn ascending(s: Seq<u64>) -> bool {
    forall|i: int, j: int| 0 <= i <= j < s.len() ==> order_key(s[i]) <= order_key(s[j])
}

/// Whether any item is not a number.
pub open spec fn has_nan(s: Seq<u64>) -> bool {
    exists|i: int| 0 <= i < s.len() && is_nan(#[trigger] s[i])
}

/// `s` with `x` put in behind the last item whose key is not above the key of
/// `x`.
pub open spec fn insert_ascending(s: Seq<u64>, x: u64) -> Seq<u64>
    decreases s.len(),
{
    if s.len() == 0 || order_key(s.last()) <= order_key(x) {
        s.push(x)
    } else {
        insert_ascending(s.drop_last(), x).push(s.last())
    }
}

/// The items of `s` in ascending order of their keys, items of equal key in
/// the order in which `s` has them.
pub open spec fn sort_ascending(s: Seq<u64>) -> Seq<u64>
    decreases s.len(),
{
    if s.len() == 0 {
        s
    } else {
        insert_ascending(sort_ascending(s.drop_last()), s.last())
    }
}

/// Where `insert_ascending` puts the new item: in front of the trailing run
/// of items with a larger key.
pub proof fn lemma_insert_position(s: Seq<u64>, x: u64, pos: int)
    requires
        0 <= pos <= s.len(),
        forall|t: int| pos <= t < s.len() ==> order_key(#[trigger] s[t]) > order_key(x),
        pos == 0 || order_key(s[pos - 1]) <= order_key(x),
    ensures
        insert_ascending(s, x) == s.insert(pos, x),
    decreases s.len() - pos,
{
    if pos == s.len() {
        assert(s.push(x) =~= s.insert(pos, x));
    } else {
        let front = s.drop_last();
        lemma_insert_position(front, x, pos);
        assert(front.insert(pos, x).push(s.last()) =~= s.insert(pos, x));
    }
}

/// Putting an item into an ascending sequence keeps it ascending, and the new
/// sequence holds the old items and the new one.
pub proof fn lemma_insert_ascending(s: Seq<u64>, x: u64)
    ensures
        insert_ascending(s, x).len() == s.len() + 1,
        insert_ascending(s, x).to_multiset() == s.to_multiset().insert(x),
        ascending(s) ==> ascending(insert_ascending(s, x)),
    decreases s.len(),
{
    broadcast use vstd::seq_lib::to_multiset_build;

    let r = insert_ascending(s, x);
    if s.len() == 0 || order_key(s.last()) <= order_key(x) {
    } else {
        let front = s.drop_last();
        let inner = insert_ascending(front, x);
        lemma_insert_ascending(front, x);
        assert(s =~= front.push(s.last()));
        assert(r.to_multiset() =~= s.to_multiset().insert(x));
        if ascending(s) {
            assert(ascending(front));
            assert forall|i: int, j: int| 0 <= i <= j < r.len() implies order_key(r[i])
                <= order_key(r[j]) by {
                if j == r.len() - 1 && i < j {
                    // every item of `inner` is `x` or an item of `front`
                    assert(inner.to_multiset().count(inner[i]) > 0) by {
                        inner.to_multiset_ensures();
                        assert(inner.contains(inner[i]));
                    }
                    if inner[i] != x {
                        assert(front.to_multiset().count(inner[i]) > 0);
                        front.to_multiset_ensures();
                        assert(front.contains(inner[i]));
                        let t = choose|t: int| 0 <= t < front.len() && front[t] == inner[i];
                        assert(order_key(s[t]) <= order_key(s[s.len() - 1]));
                    }
                }
            }
        }
    }
}

/// Sorting gives an ascending arrangement of the same items.
pub proof fn lemma_sort_ascending(s: Seq<u64>)
    ensures
        sort_ascending(s).len() == s.len(),
        sort_ascending(s).to_multiset() == s.to_multiset(),
        ascending(sort_ascending(s)),
    decreases s.len(),
{
    broadcast use vstd::seq_lib::to_multiset_build;

    if s.len() == 0 {
    } else {
        let front = s.drop_last();
        lemma_sort_ascending(front);
        lemma_insert_ascending(sort_ascending(front), s.last());
        assert(s =~= front.push(s.last()));
    }
}

/// Puts `x` into the ascending `out`, behind the items that are not larger.
fn insert_sorted(out: &mut Vec<u64>, x: u64)
    ensures
        final(out)@ == insert_ascending(old(out)@, x),
{
    let key: i64 = order_key(x);
    let mut pos: usize = out.len();
    while pos > 0 && order_key(out[pos - 1]) > key
        invariant
            pos <= out.len(),
            out@ == old(out)@,
            key == order_key(x),
            forall|t: int| pos <= t < out.len() ==> order_key(#[trigger] out@[t]) > key,
        decreases pos,
    {
        pos -= 1;
    }
    proof {
        lemma_insert_position(out@, x, pos as int);
    }
    out.insert(pos, x);
}

/// Puts eigenvalues in ascending order. Eigenvalues that are equal as reals
/// (the two zeros) keep the order in which they came.
///
/// Fails with `EigendecompositionFailure` exactly when one of them is not a
/// number.
pub fn sorted_eigenvalues(eigenvalues: &[u64]) -> (r: Result<Vec<u64>, RmtError>)
    ensures
        has_nan(eigenvalues@) ==> r == Err::<Vec<u64>, RmtError>(
            RmtError::EigendecompositionFailure,
        ),
        !has_nan(eigenvalues@) ==> r is Ok && r->Ok_0@ == sort_ascending(eigenvalues@),
        r is Ok ==> r->Ok_0@.len() == eigenvalues@.len() && ascending(r->Ok_0@)
            && r->Ok_0@.to_multiset() == eigenvalues@.to_multiset(),
{
    let mut out: Vec<u64> = Vec::new();
    let mut i: usize = 0;
    while i < eigenvalues.len()
        invariant
            i <= eigenvalues.len(),
            out@ == sort_ascending(eigenvalues@.take(i as int)),
            forall|t: int| 0 <= t < i ==> !is_nan(#[trigger] eigenvalues@[t]),
        decreases eigenvalues.len() - i,
    {
        let x: u64 = eigenvalues[i];
        if is_nan(x) {
            return Err(RmtError::EigendecompositionFailure);
        }
        proof {
            let next = eigenvalues@.take(i + 1);
            assert(next.drop_last() =~= eigenvalues@.take(i as int));
            assert(next.last() == x);
        }
        insert_sorted(&mut out, x);
        i += 1;
    }
    proof {
        assert(eigenvalues@.take(i as int) =~= eigenvalues@);
        lemma_sort_ascending(eigenvalues@);
    }
    Ok(out)
}

/// The test for having key `c`.
pub open spec fn has_key(c: i64) -> spec_fn(u64) -> bool {
    |x: u64| order_key(x) == c
}

/// Putting an item in leaves the items of every other key as they were, and
/// puts it behind the items of its own key.
pub proof fn lemma_insert_keeps_ties(s: Seq<u64>, x: u64, c: i64)
    ensures
        insert_ascending(s, x).filter(has_key(c)) == if order_key(x) == c {
            s.filter(has_key(c)).push(x)
        } else {
            s.filter(has_key(c))
        },
    decreases s.len(),
{
    broadcast use Seq::lemma_filter_push;

    if s.len() == 0 || order_key(s.last()) <= order_key(x) {
    } else {
        let front = s.drop_last();
        lemma_insert_keeps_ties(front, x, c);
        assert(s =~= front.push(s.last()));
    }
}

/// Sorting is stable: the items of any one key come out in the order in which
/// they went in.
pub proof fn lemma_sort_keeps_ties(s: Seq<u64>, c: i64)
    ensures
        sort_ascending(s).filter(has_key(c)) == s.filter(has_key(c)),
    decreases s.len(),
{
    broadcast use Seq::lemma_filter_push;

    if s.len() == 0 {
    } else {
        let front = s.drop_last();
        lemma_sort_keeps_ties(front, c);
        lemma_insert_keeps_ties(sort_ascending(front), s.last(), c);
        assert(s =~= front.push(s.last()));
    }
}

/// An ascending sequence is known by its items of each key, taken in their
/// order: two ascending sequences that agree on them, key by key, are the
/// same sequence.
pub proof fn lemma_ascending_unique(a: Seq<u64>, b: Seq<u64>)
    requires
        ascending(a),
        ascending(b),
        forall|c: i64| #[trigger] a.filter(has_key(c)) == b.filter(has_key(c)),
    ensures
        a == b,
    decreases a.len(),
{
    if a.len() == 0 {
        if b.len() > 0 {
            let c = order_key(b.last());
            b.lemma_filter_contains(has_key(c), b.len() - 1);
            a.lemma_filter_len(has_key(c));
            assert(a.filter(has_key(c)) == b.filter(has_key(c)));
        }
        assert(a =~= b);
    } else {
        let ca = order_key(a.last());
        a.lemma_filter_contains(has_key(ca), a.len() - 1);
        assert(a.filter(has_key(ca)) == b.filter(has_key(ca)));
        b.lemma_filter_contains_rev(has_key(ca), a.last());
        let t = choose|t: int| 0 <= t < b.len() && b[t] == a.last();
        let cb = order_key(b.last());
        assert(order_key(b[t]) <= order_key(b[b.len() - 1]));
        b.lemma_filter_contains(has_key(cb), b.len() - 1);
        assert(a.filter(has_key(cb)) == b.filter(has_key(cb)));
        a.lemma_filter_contains_rev(has_key(cb), b.last());
        let u = choose|u: int| 0 <= u < a.len() && a[u] == b.last();
        assert(order_key(a[u]) <= order_key(a[a.len() - 1]));
        assert(ca == cb);
        let fa = a.drop_last();
        let fb = b.drop_last();
        assert(a =~= fa.push(a.last()));
        assert(b =~= fb.push(b.last()));
        assert forall|c: i64| #[trigger] fa.filter(has_key(c)) == fb.filter(has_key(c)) by {
            fa.lemma_filter_push(a.last(), has_key(c));
            fb.lemma_filter_push(b.last(), has_key(c));
            assert(a.filter(has_key(c)) == b.filter(has_key(c)));
            if c == ca {
                let pa = fa.filter(has_key(c));
                let pb = fb.filter(has_key(c));
                assert(pa.push(a.last()).drop_last() =~= pa);
                assert(pb.push(b.last()).drop_last() =~= pb);
            }
        }
        fa.lemma_filter_push(a.last(), has_key(ca));
        fb.lemma_filter_push(b.last(), has_key(ca));
        assert(fa.filter(has_key(ca)).push(a.last()).last() == a.last());
        assert(fb.filter(has_key(ca)).push(b.last()).last() == b.last());
        assert(a.last() == b.last());
        lemma_ascending_unique(fa, fb);
    }
}

/// What sorting returns is the one sequence that is ascending and holds, for
/// every key, the items of that key that went in, in the order in which they
/// went in.
pub proof fn lemma_sort_characterised(s: Seq<u64>, r: Seq<u64>)
    requires
        ascending(r),
        forall|c: i64| #[trigger] r.filter(has_key(c)) == s.filter(has_key(c)),
    ensures
        r == sort_ascending(s),
{
    lemma_sort_ascending(s);
    assert forall|c: i64| #[trigger]
        r.filter(has_key(c)) == sort_ascending(s).filter(has_key(c)) by {
        lemma_sort_keeps_ties(s, c);
    }
    lemma_ascending_unique(r, sort_ascending(s));
}

/// The gap between two neighbouring eigenvalues, given by its two ends. The
/// spacing is the width of the gap, `upper - lower`.
#[derive(Clone, Copy, Debug, PartialEq, Eq, Structural)]
pub struct Gap {
    pub lower: u64,
    pub upper: u64,
}

/// The number of gaps between `len` items in a row.
pub open spec fn gap_count(len: nat) -> nat {
    if len == 0 {
        0
    } else {
        (len - 1) as nat
    }
}

/// The gaps between the neighbours of `s`, from the first pair on.
pub open spec fn neighbour_gaps(s: Seq<u64>) -> Seq<Gap> {
    Seq::new(gap_count(s.len()), |k: int| Gap { lower: s[k], upper: s[k + 1] })
}

/// Pairs every item with the next one.
pub fn gaps_between(values: &[u64]) -> (r: Vec<Gap>)
    ensures
        r@ == neighbour_gaps(values@),
{
    let mut out: Vec<Gap> = Vec::new();
    if values.len() == 0 {
        assert(out@ =~= neighbour_gaps(values@));
        return out;
    }
    let mut k: usize = 0;
    while k + 1 < values.len()
        invariant
            k + 1 <= values.len(),
            out@.len() == k,
            forall|t: int| 0 <= t < k ==> out@[t] == (Gap { lower: values@[t], upper: values@[t + 1] }),
        decreases values.len() - k,
    {
        out.push(Gap { lower: values[k], upper: values[k + 1] });
        k += 1;
    }
    assert(out@ =~= neighbour_gaps(values@));
    out
}

/// Turns what an eigenvalue decomposition gave into the gaps between
/// neighbouring eigenvalues: the eigenvalues are put in ascending order, and
/// each is paired with the next. A matrix of dimension `d` has `d`
/// eigenvalues and so `d - 1` gaps (none for `d == 0`), and in each gap the
/// lower end is not above the upper end.
///
/// Fails with `EigendecompositionFailure` exactly when the decomposition gave
/// no eigenvalues (`None`) or one of them is not a number.
pub fn eigenvalue_gaps(eigenvalues: Option<Vec<u64>>) -> (r: Result<Vec<Gap>, RmtError>)
    ensures
        match eigenvalues {
            Some(e) => if has_nan(e@) {
                r == Err::<Vec<Gap>, RmtError>(RmtError::EigendecompositionFailure)
            } else {
                r is Ok && r->Ok_0@ == neighbour_gaps(sort_ascending(e@))
            },
            None => r == Err::<Vec<Gap>, RmtError>(RmtError::EigendecompositionFailure),
        },
        r is Ok ==> eigenvalues is Some && r->Ok_0@.len() == gap_count(
            eigenvalues->Some_0@.len(),
        ),
        r is Ok ==> forall|k: int|
            0 <= k < r->Ok_0@.len() ==> {
                let gap = #[trigger] r->Ok_0@[k];
                &&& !is_nan(gap.lower)
                &&& !is_nan(gap.upper)
                &&& order_key(gap.lower) <= order_key(gap.upper)
            },
{
    match eigenvalues {
        None => Err(RmtError::EigendecompositionFailure),
        Some(e) => {
            match sorted_eigenvalues(e.as_slice()) {
                Err(err) => Err(err),
                Ok(sorted) => {
                    let gaps = gaps_between(sorted.as_slice());
                    proof {
                        lemma_sorted_has_no_nan(e@);
                    }
                    Ok(gaps)
                },
            }
        },
    }
}

/// Sorting brings in nothing that is not a number.
pub proof fn lemma_sorted_has_no_nan(s: Seq<u64>)
    requires
        !has_nan(s),
    ensures
        !has_nan(sort_ascending(s)),
{
    let r = sort_ascending(s);
    lemma_sort_ascending(s);
    if has_nan(r) {
        let i = choose|i: int| 0 <= i < r.len() && is_nan(#[trigger] r[i]);
        r.to_multiset_ensures();
        s.to_multiset_ensures();
        assert(r.contains(r[i]));
        assert(s.to_multiset().count(r[i]) > 0);
        assert(s.contains(r[i]));
        let t = choose|t: int| 0 <= t < s.len() && s[t] == r[i];
        assert(is_nan(s[t]));
    }
}

} // verus!
