//! Ordering of records newest first, as the store's listings require.
use vstd::prelude::*;
use vstd::multiset::Multiset;
use vstd::seq_lib::group_to_multiset_ensures;

verus! {

/// A record that carries a modification time.
pub trait Recency: View + Sized {
    /// The modification time of a record's model.
    spec fn recency_of(v: Self::V) -> i64;

    fn recency(&self) -> (r: i64)
        ensures
            r == Self::recency_of(self@),
    ;
}

/// The models of the records of `s`, in order.
pub open spec fn views<T: View>(s: Seq<T>) -> Seq<T::V> {
    s.map_values(|t: T| t@)
}

/// The records of `s` run from the most recently modified to the least.
pub open spec fn newest_first<T: Recency>(s: Seq<T>) -> bool {
    forall|i: int, j: int|
        0 <= i < j < s.len() ==> T::recency_of(#[trigger] s[i]@) >= T::recency_of(
            #[trigger] s[j]@,
        )
}

/// Reorders `v` newest first; records of equal time keep no particular order.
pub fn sort_by_recency<T: Recency>(v: Vec<T>) -> (r: Vec<T>)
    ensures
        views(r@).to_multiset() == views(v@).to_multiset(),
        newest_first(r@),
{
    broadcast use group_to_multiset_ensures;

    let ghost orig = v@;
    let mut rest = v;
    let mut out: Vec<T> = Vec::new();
    assert(views(out@) =~= Seq::<T::V>::empty());
    assert(views(out@).to_multiset() =~= Multiset::empty());
    while rest.len() > 0
        invariant
            views(out@).to_multiset().add(views(rest@).to_multiset()) == views(
                orig,
            ).to_multiset(),
            newest_first(out@),
        decreases rest.len(),
    {
        let ghost rest_before = rest@;
        let ghost out_before = out@;
        let x = match rest.pop() {
            Some(x) => x,
            None => {
                return out;
            },
        };
        assert(views(rest_before) =~= views(rest@).push(x@));
        let k = x.recency();
        let mut pos: usize = 0;
        while pos < out.len() && out[pos].recency() > k
            invariant
                out@ == out_before,
                pos <= out.len(),
                forall|i: int| 0 <= i < pos ==> T::recency_of(#[trigger] out@[i]@) > k,
            decreases out.len() - pos,
        {
            pos = pos + 1;
        }
        out.insert(pos, x);
        assert(views(out@).remove(pos as int) =~= views(out_before));
        assert(views(out@)[pos as int] == x@);
        assert(views(out@).to_multiset() =~= views(out_before).to_multiset().insert(x@)) by {
            let m = views(out@).to_multiset();
            let before = views(out_before).to_multiset();
            views(out@).to_multiset_ensures();
            assert(views(out@).remove(pos as int).to_multiset() == m.remove(x@));
            assert(views(out@).contains(x@));
            assert(m.count(x@) > 0);
            assert forall|a: T::V| m.count(a) == before.insert(x@).count(a) by {
                assert(m.remove(x@).count(a) == before.count(a));
            }
        }
        proof {
            views(rest@).to_multiset_ensures();
            assert(views(rest_before).to_multiset() == views(rest@).to_multiset().insert(x@));
            assert(views(out@).to_multiset().add(views(rest@).to_multiset()) =~= views(
                out_before,
            ).to_multiset().add(views(rest_before).to_multiset()));
        }
        assert(newest_first(out@)) by {
            assert forall|i: int, j: int| 0 <= i < j < out@.len() implies T::recency_of(
                #[trigger] out@[i]@,
            ) >= T::recency_of(#[trigger] out@[j]@) by {
                if pos < out_before.len() {
                    assert(T::recency_of(out_before[pos as int]@) <= k);
                }
                if i < pos && j == pos {
                } else if i == pos && j > pos {
                    assert(out@[j] == out_before[j - 1]);
                    if j - 1 > pos {
                        assert(T::recency_of(out_before[pos as int]@) >= T::recency_of(
                            out_before[j - 1]@,
                        ));
                    }
                } else if i < pos && j > pos {
                    assert(out@[j] == out_before[j - 1]);
                } else if i > pos {
                    assert(out@[i] == out_before[i - 1]);
                    assert(out@[j] == out_before[j - 1]);
                }
            }
        }
    }
    out
}

} // verus!
