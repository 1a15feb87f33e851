//! Deterministic ranking of search candidates.
//!
//! A candidate is ranked by a single `u64` key that carries the distance bit
//! pattern in its high half and the dense point id in its low half, so that
//! ordinary unsigned comparison orders candidates by ascending distance with
//! ties broken by ascending id. Ranking a whole candidate set is specified by
//! a sequence-level insertion sort, and the executable sort is proved to
//! return exactly that sequence.

use vstd::prelude::*;

verus! {

/// True when `s` is in non-decreasing order.
pub open spec fn sorted(s: Seq<u64>) -> bool {
    forall|i: int, j: int| 0 <= i < j < s.len() ==> s[i] <= s[j]
}

/// `x` placed into the sorted sequence `s`, after any entries equal to it.
pub open spec fn insert_sorted(s: Seq<u64>, x: u64) -> Seq<u64>
    decreases s.len(),
{
    if s.len() == 0 {
        seq![x]
    } else if x < s[0] {
        seq![x] + s
    } else {
        seq![s[0]] + insert_sorted(s.drop_first(), x)
    }
}

/// The entries of `s` in non-decreasing order: each entry in turn inserted
/// into the sorted sequence of the entries before it.
pub open spec fn sort_keys(s: Seq<u64>) -> Seq<u64>
    decreases s.len(),
{
    if s.len() == 0 {
        Seq::<u64>::empty()
    } else {
        insert_sorted(sort_keys(s.drop_last()), s.last())
    }
}

proof fn lemma_insert_sorted_props(s: Seq<u64>, x: u64)
    requires
        sorted(s),
    ensures
        sorted(insert_sorted(s, x)),
        insert_sorted(s, x).to_multiset() == s.to_multiset().insert(x),
        insert_sorted(s, x).len() == s.len() + 1,
    decreases s.len(),
{
    broadcast use vstd::seq_lib::group_to_multiset_ensures;

    if s.len() == 0 {
        assert(seq![x] =~= Seq::<u64>::empty().push(x));
        assert(seq![x].to_multiset() == s.to_multiset().insert(x));
    } else if x < s[0] {
        let r = seq![x] + s;
        assert forall|i: int, j: int| 0 <= i < j < r.len() implies r[i] <= r[j] by {
            if i > 0 {
                assert(s[i - 1] <= s[j - 1]);
            }
        }
        lemma_multiset_of_cons(s, x);
    } else {
        let rest = s.drop_first();
        assert(sorted(rest));
        lemma_insert_sorted_props(rest, x);
        let inner = insert_sorted(rest, x);
        let r = seq![s[0]] + inner;
        assert forall|i: int, j: int| 0 <= i < j < r.len() implies r[i] <= r[j] by {
            if i == 0 {
                // every entry of `inner` is either x (>= s[0]) or an entry of rest
                assert(inner.to_multiset().count(r[j]) > 0);
                assert(inner.contains(r[j]));
                let k = choose|k: int| 0 <= k < inner.len() && inner[k] == r[j];
                assert(rest.to_multiset().insert(x).count(inner[k]) > 0);
                if inner[k] != x {
                    assert(rest.to_multiset().count(inner[k]) > 0);
                    assert(rest.contains(inner[k]));
                    let m = choose|m: int| 0 <= m < rest.len() && rest[m] == inner[k];
                    assert(s[0] <= s[m + 1]);
                }
            } else {
                assert(inner[i - 1] <= inner[j - 1]);
            }
        }
        lemma_multiset_of_cons(inner, s[0]);
        lemma_multiset_of_cons(rest, s[0]);
        assert(seq![s[0]] + rest =~= s);
        assert(r.to_multiset() == s.to_multiset().insert(x)) by {
            assert(r.to_multiset() == inner.to_multiset().insert(s[0]));
            assert(inner.to_multiset() == rest.to_multiset().insert(x));
            assert(s.to_multiset() == rest.to_multiset().insert(s[0]));
            assert(rest.to_multiset().insert(x).insert(s[0]) =~= rest.to_multiset().insert(
                s[0],
            ).insert(x));
        }
    }
}

proof fn lemma_multiset_of_cons(s: Seq<u64>, x: u64)
    ensures
        (seq![x] + s).to_multiset() == s.to_multiset().insert(x),
    decreases s.len(),
{
    broadcast use vstd::seq_lib::group_to_multiset_ensures;

    let r = seq![x] + s;
    if s.len() == 0 {
        assert(r =~= Seq::<u64>::empty().push(x));
    } else {
        assert(r.drop_last() =~= seq![x] + s.drop_last());
        lemma_multiset_of_cons(s.drop_last(), x);
        assert(r =~= r.drop_last().push(s.last()));
        assert(s =~= s.drop_last().push(s.last()));
        assert(r.to_multiset() == r.drop_last().to_multiset().insert(s.last()));
        assert(s.to_multiset() == s.drop_last().to_multiset().insert(s.last()));
        assert(s.drop_last().to_multiset().insert(x).insert(s.last()) =~= s.drop_last()
            .to_multiset()
            .insert(s.last())
            .insert(x));
    }
}

/// Law: ranking reorders the candidate set and nothing more — the result is
/// in non-decreasing order, and it holds exactly the entries of the input,
/// with multiplicity.
pub proof fn lemma_sort_keys_props(s: Seq<u64>)
    ensures
        sorted(sort_keys(s)),
        sort_keys(s).to_multiset() == s.to_multiset(),
        sort_keys(s).len() == s.len(),
    decreases s.len(),
{
    broadcast use vstd::seq_lib::group_to_multiset_ensures;

    if s.len() > 0 {
        lemma_sort_keys_props(s.drop_last());
        lemma_insert_sorted_props(sort_keys(s.drop_last()), s.last());
        assert(s =~= s.drop_last().push(s.last()));
        assert(s.to_multiset() == s.drop_last().to_multiset().insert(s.last()));
    }
}

/// Inserting at the boundary position between the entries at most `x` and
/// the entries greater than `x` is what `insert_sorted` does.
proof fn lemma_insert_at_position(s: Seq<u64>, x: u64, pos: int)
    requires
        sorted(s),
        0 <= pos <= s.len(),
        forall|j: int| 0 <= j < pos ==> s[j] <= x,
        pos < s.len() ==> x < s[pos],
    ensures
        insert_sorted(s, x) == s.subrange(0, pos) + seq![x] + s.subrange(pos, s.len() as int),
    decreases s.len(),
{
    if s.len() == 0 {
        assert(insert_sorted(s, x) =~= s.subrange(0, pos) + seq![x] + s.subrange(
            pos,
            s.len() as int,
        ));
    } else if pos == 0 {
        assert(x < s[0]);
        assert(seq![x] + s =~= s.subrange(0, 0) + seq![x] + s.subrange(0, s.len() as int));
    } else {
        assert(s[0] <= x);
        let rest = s.drop_first();
        lemma_insert_at_position(rest, x, pos - 1);
        assert(seq![s[0]] + (rest.subrange(0, pos - 1) + seq![x] + rest.subrange(
            pos - 1,
            rest.len() as int,
        )) =~= s.subrange(0, pos) + seq![x] + s.subrange(pos, s.len() as int));
    }
}

/// Sorts the candidate keys into the exact sequence `sort_keys` specifies.
pub(crate) fn rank_keys(v: &Vec<u64>) -> (r: Vec<u64>)
    ensures
        r@ == sort_keys(v@),
{
    let mut out: Vec<u64> = Vec::new();
    let mut i: usize = 0;
    proof {
        assert(v@.take(0) =~= Seq::<u64>::empty());
    }
    while i < v.len()
        invariant
            i <= v@.len(),
            out@ == sort_keys(v@.take(i as int)),
        decreases v@.len() - i,
    {
        let x = v[i];
        proof {
            lemma_sort_keys_props(v@.take(i as int));
        }
        let mut pos: usize = 0;
        while pos < out.len() && out[pos] <= x
            invariant
                pos <= out@.len(),
                forall|j: int| 0 <= j < pos ==> out@[j] <= x,
            decreases out@.len() - pos,
        {
            pos += 1;
        }
        proof {
            lemma_insert_at_position(out@, x, pos as int);
        }
        out.insert(pos, x);
        proof {
            let prev = v@.take(i as int);
            let next = v@.take(i + 1);
            assert(next.drop_last() =~= prev);
            assert(next.last() == v@[i as int]);
            // Vec::insert matches the boundary-position form of insert_sorted.
            assert(out@ =~= insert_sorted(sort_keys(prev), x));
            assert(sort_keys(next) == insert_sorted(sort_keys(prev), x));
        }
        i += 1;
    }
    proof {
        assert(v@.take(v@.len() as int) =~= v@);
    }
    out
}

} // verus!
