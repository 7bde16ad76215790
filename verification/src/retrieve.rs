//! Spatial candidate retrieval semantics.
//!
//! `find_candidates` is the reference meaning of the store's proximity
//! query: every persistent record whose case-normalized number equals
//! the incoming one's and whose point lies within the distance bound.
//! The boundary is inclusive: a candidate exactly at the bound is a
//! candidate.  Result order follows store order, but the decision engine
//! is correct under any order.

use vstd::prelude::*;
use crate::entity::{Address, AddressV};
use crate::conflate::{addrs_view, number_eq, number_eq_exec};
use crate::geomath::{within, within_exec, sq_dist};

verus! {

/// The retrieval predicate: same number, within the bound.
pub open spec fn cand_pred(inc: AddressV, c: AddressV, max_dist: i64) -> bool {
    number_eq(inc.number, c.number) && within(inc.geom, c.geom, max_dist)
}

/// The retrieved subsequence: every record passing `cand_pred`, in order.
pub open spec fn retrieved(recs: Seq<AddressV>, inc: AddressV, max_dist: i64) -> Seq<AddressV> {
    recs.filter(|c: AddressV| cand_pred(inc, c, max_dist))
}

/// All plausible counterparts of `incoming` among `records`, in order.
#[verifier::loop_isolation(false)]
pub fn find_candidates(incoming: &Address, records: &Vec<Address>, max_dist: i64) -> (r: Vec<
    Address,
>)
    requires
        max_dist >= 0,
    ensures
        addrs_view(r@) == retrieved(addrs_view(records@), incoming@, max_dist),
        forall|i: int|
            0 <= i < r@.len() ==> exists|j: int|
                0 <= j < records@.len() && (#[trigger] r@[i])@ == records@[j]@ && r@[i].id
                    == records@[j].id,
{
    let ghost av = addrs_view(records@);
    let ghost pred = |c: AddressV| cand_pred(incoming@, c, max_dist);
    let mut r: Vec<Address> = Vec::new();
    let mut i: usize = 0;
    proof {
        reveal(Seq::filter);
        assert(av.subrange(0, 0) =~= Seq::<AddressV>::empty());
        assert(addrs_view(r@) =~= Seq::<AddressV>::empty());
        assert(Seq::<AddressV>::empty().filter(pred) =~= Seq::<AddressV>::empty());
    }
    while i < records.len()
        invariant
            i <= records@.len(),
            addrs_view(r@) == av.subrange(0, i as int).filter(pred),
            forall|k: int|
                0 <= k < r@.len() ==> exists|j: int|
                    0 <= j < records@.len() && (#[trigger] r@[k])@ == records@[j]@ && r@[k].id
                        == records@[j].id,
        decreases records@.len() - i,
    {
        let is_cand = number_eq_exec(&incoming.number, &records[i].number) && within_exec(
            incoming.geom,
            records[i].geom,
            max_dist,
        );
        proof {
            reveal(Seq::filter);
            let pre = av.subrange(0, i as int);
            let cur = av.subrange(0, i + 1);
            assert(cur.drop_last() =~= pre);
            assert(cur.last() == av[i as int]);
        }
        if is_cand {
            let ghost old_r = r@;
            r.push(records[i].clone());
            proof {
                assert(addrs_view(r@) =~= addrs_view(old_r).push(records@[i as int]@));
                assert forall|k: int| 0 <= k < r@.len() implies exists|j: int|
                    0 <= j < records@.len() && (#[trigger] r@[k])@ == records@[j]@ && r@[k].id
                        == records@[j].id by {
                    if k == r@.len() - 1 {
                        assert((r@[k])@ == records@[i as int]@ && r@[k].id == records@[i as int].id);
                    } else {
                        assert(r@[k] == old_r[k]);
                    }
                }
            }
        }
        i = i + 1;
    }
    proof {
        assert(av.subrange(0, records@.len() as int) =~= av);
    }
    r
}

/// A candidate exactly at the distance bound is retrieved (the boundary
/// convention is inclusive).
pub proof fn lemma_threshold_inclusive(inc: AddressV, c: AddressV, d: i64)
    requires
        number_eq(inc.number, c.number),
        sq_dist(inc.geom, c.geom) == d * d,
    ensures
        cand_pred(inc, c, d),
{
}

/// A candidate strictly beyond the bound is not retrieved.
pub proof fn lemma_threshold_exclusive(inc: AddressV, c: AddressV, d: i64)
    requires
        sq_dist(inc.geom, c.geom) > d * d,
    ensures
        !cand_pred(inc, c, d),
{
}

} // verus!
