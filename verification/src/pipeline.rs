//! The pipeline orchestrator over an in-memory store model.
//!
//! For each incoming record: retrieve candidates, decide, apply the
//! action, count the outcome.  A malformed record or an ambiguous match
//! is routed to the error count and the run continues; nothing here
//! aborts the stream.  The store model makes the mutation semantics
//! explicit and testable; an outside store applies the same actions
//! through its own writes.

use vstd::prelude::*;
use crate::entity::{Address, AddressV, Context, tokens_view};
use crate::conflate::{
    Action, ConflateError, ConflateConfig, addrs_view, compare,
};
use crate::retrieve::find_candidates;

verus! {

/// The persistent dataset: records (each with an id) and the next free id.
pub struct Store {
    pub records: Vec<Address>,
    pub next_id: i64,
}

impl Store {
    /// Every record carries an id below `next_id`.
    pub open spec fn wf(self) -> bool {
        &&& 0 <= self.next_id
        &&& forall|i: int|
            0 <= i < self.records@.len() ==> (#[trigger] self.records@[i].id) is Some
                && self.records@[i].id.unwrap() < self.next_id
    }

    /// An empty store.
    pub fn new() -> (r: Store)
        ensures
            r.wf(),
            r.records@.len() == 0,
            r.next_id == 1,
    {
        Store { records: Vec::new(), next_id: 1 }
    }
}

/// The revision of `inc` that keeps a persistent id.
pub open spec fn revised(inc: AddressV, id: i64) -> AddressV {
    AddressV { id: Some(id), ..inc }
}

/// The records left after removing every id a merge names.
pub open spec fn purge(recs: Seq<AddressV>, ids: Seq<i64>) -> Seq<AddressV> {
    recs.filter(|c: AddressV| !(c.id is Some && ids.contains(c.id.unwrap())))
}

/// The records after an update replaced the record carrying `id`.
pub open spec fn update_recs(recs: Seq<AddressV>, inc: AddressV, id: i64) -> Seq<AddressV> {
    recs.map_values(
        |c: AddressV|
            if c.id == Some(id) {
                revised(inc, id)
            } else {
                c
            },
    )
}

/// Apply one decided action to the store.
///
/// `Create` inserts the incoming record under the next free id;
/// `Update` replaces the record that carries the id, keeping the id;
/// `Merge` removes every record whose id the action names and inserts
/// the resolved record; `NoAction` changes nothing.
#[verifier::loop_isolation(false)]
pub fn apply_action(store: &mut Store, incoming: &Address, action: &Action)
    requires
        old(store).next_id < i64::MAX,
    ensures
        *action is Create ==> addrs_view(final(store).records@) == addrs_view(
            old(store).records@,
        ).push(revised(incoming@, old(store).next_id)) && final(store).next_id == old(
            store,
        ).next_id + 1,
        (*action matches Action::Update(id) ==> final(store).next_id == old(store).next_id
            && addrs_view(final(store).records@).len() == addrs_view(old(store).records@).len()
            && (forall|i: int|
            0 <= i < addrs_view(old(store).records@).len() ==> #[trigger] addrs_view(
                final(store).records@,
            )[i] == (if addrs_view(old(store).records@)[i].id == Some(id) {
                revised(incoming@, id)
            } else {
                addrs_view(old(store).records@)[i]
            }))),
        (*action matches Action::Merge { ids, merged } ==> final(store).next_id == old(
            store,
        ).next_id && addrs_view(final(store).records@) == purge(
            addrs_view(old(store).records@),
            ids@,
        ).push(merged@)),
        *action is NoAction ==> *final(store) == *old(store),
{
    match action {
        Action::Create => {
            let mut rec = incoming.clone();
            rec.id = Some(store.next_id);
            let ghost old_recs = store.records@;
            store.records.push(rec);
            store.next_id = store.next_id + 1;
            proof {
                assert(addrs_view(store.records@) =~= addrs_view(old_recs).push(
                    revised(incoming@, old(store).next_id),
                ));
            }
        },
        Action::Update(id) => {
            let id = *id;
            let mut out: Vec<Address> = Vec::new();
            let ghost av = addrs_view(store.records@);
            let mut i: usize = 0;
            while i < store.records.len()
                invariant
                    i <= store.records@.len(),
                    store.records@ == old(store).records@,
                    out@.len() == i,
                    forall|j: int|
                        0 <= j < i ==> #[trigger] addrs_view(out@)[j] == (if av[j].id == Some(id) {
                            revised(incoming@, id)
                        } else {
                            av[j]
                        }),
                decreases store.records@.len() - i,
            {
                let matches_id = (match store.records[i].id {
                    Some(rid) => rid == id,
                    None => false,
                });
                let ghost old_out = out@;
                if matches_id {
                    let mut rec = incoming.clone();
                    rec.id = Some(id);
                    proof {
                        assert(rec@ == revised(incoming@, id));
                    }
                    out.push(rec);
                    proof {
                        assert(addrs_view(out@) =~= addrs_view(old_out).push(
                            revised(incoming@, id),
                        ));
                    }
                } else {
                    out.push(store.records[i].clone());
                    proof {
                        assert(addrs_view(out@) =~= addrs_view(old_out).push(
                            store.records@[i as int]@,
                        ));
                    }
                }
                i = i + 1;
            }
            store.records = out;
        },
        Action::Merge { ids, merged } => {
            let ghost pred = |c: AddressV| !(c.id is Some && ids@.contains(c.id.unwrap()));
            let mut out: Vec<Address> = Vec::new();
            let ghost av = addrs_view(store.records@);
            let mut i: usize = 0;
            proof {
                reveal(Seq::filter);
                assert(av.subrange(0, 0) =~= Seq::<AddressV>::empty());
                assert(addrs_view(out@) =~= Seq::<AddressV>::empty());
                assert(Seq::<AddressV>::empty().filter(pred) =~= Seq::<AddressV>::empty());
            }
            while i < store.records.len()
                invariant
                    i <= store.records@.len(),
                    store.records@ == old(store).records@,
                    addrs_view(out@) == av.subrange(0, i as int).filter(pred),
                decreases store.records@.len() - i,
            {
                let keep = (match store.records[i].id {
                    Some(rid) => !contains_id(ids, rid),
                    None => true,
                });
                proof {
                    reveal(Seq::filter);
                    let pre = av.subrange(0, i as int);
                    let cur = av.subrange(0, i + 1);
                    assert(cur.drop_last() =~= pre);
                    assert(cur.last() == av[i as int]);
                    assert(keep == pred(av[i as int]));
                }
                if keep {
                    let ghost old_out = out@;
                    out.push(store.records[i].clone());
                    proof {
                        assert(addrs_view(out@) =~= addrs_view(old_out).push(
                            store.records@[i as int]@,
                        ));
                    }
                }
                i = i + 1;
            }
            proof {
                assert(av.subrange(0, store.records@.len() as int) =~= av);
            }
            let ghost before_push = out@;
            out.push(merged.clone());
            proof {
                assert(addrs_view(out@) =~= addrs_view(before_push).push(merged@));
            }
            store.records = out;
        },
        Action::NoAction => {},
    }
}

/// Does the id list contain `id`?
fn contains_id(ids: &Vec<i64>, id: i64) -> (r: bool)
    ensures
        r == ids@.contains(id),
{
    let mut i: usize = 0;
    while i < ids.len()
        invariant
            i <= ids@.len(),
            forall|j: int| 0 <= j < i ==> ids@[j] != id,
        decreases ids@.len() - i,
    {
        if ids[i] == id {
            assert(ids@.contains(id));
            return true;
        }
        i = i + 1;
    }
    assert(!ids@.contains(id));
    false
}

/// One item of the incoming stream: a parsed record, or one the
/// normalizer could not parse, kept with its failure context.
pub enum Incoming {
    Feature(Address),
    Malformed(String),
}

/// Outcome counts of a conflation run.
pub struct Summary {
    pub created: usize,
    pub updated: usize,
    pub merged: usize,
    pub unchanged: usize,
    pub errors: usize,
}

/// The number of malformed items in the stream.
pub open spec fn count_malformed(s: Seq<Incoming>) -> int
    decreases s.len(),
{
    if s.len() == 0 {
        0int
    } else {
        count_malformed(s.drop_last()) + (if s.last() is Malformed {
            1int
        } else {
            0int
        })
    }
}


/// State of a run at the view level: records, id frontier, counts.
pub ghost struct RunV {
    pub recs: Seq<AddressV>,
    pub next: i64,
    pub created: int,
    pub updated: int,
    pub merged: int,
    pub unchanged: int,
    pub errors: int,
}

/// One pipeline step at the view level: retrieval, decision, store
/// mutation and outcome count, exactly as the executable step does them.
pub open spec fn step_spec(
    st: RunV,
    item: Incoming,
    tokens: Seq<(Seq<u8>, Seq<u8>)>,
    cfg: ConflateConfig,
) -> RunV {
    match item {
        Incoming::Malformed(_) => (RunV { errors: st.errors + 1, ..st }),
        Incoming::Feature(a) => {
            let inc = a@;
            let cands = crate::retrieve::retrieved(st.recs, inc, cfg.match_dist);
            if cands.len() == 0 {
                RunV {
                    recs: st.recs.push(revised(inc, st.next)),
                    next: (st.next + 1) as i64,
                    created: st.created + 1,
                    ..st
                }
            } else if cands.len() == 1 {
                if crate::conflate::addr_identical(inc, cands[0], tokens, cfg) {
                    RunV { unchanged: st.unchanged + 1, ..st }
                } else {
                    RunV {
                        recs: update_recs(st.recs, inc, cands[0].id.unwrap()),
                        updated: st.updated + 1,
                        ..st
                    }
                }
            } else if crate::conflate::consistent(inc, cands, tokens, cfg) {
                RunV {
                    recs: purge(st.recs, crate::conflate::ids_of(cands)).push(
                        crate::conflate::merged_spec(inc, cands, tokens),
                    ),
                    merged: st.merged + 1,
                    ..st
                }
            } else {
                RunV { errors: st.errors + 1, ..st }
            }
        },
    }
}

/// The whole run, folded over the incoming stream.
pub open spec fn run_spec(
    st: RunV,
    items: Seq<Incoming>,
    tokens: Seq<(Seq<u8>, Seq<u8>)>,
    cfg: ConflateConfig,
) -> RunV
    decreases items.len(),
{
    if items.len() == 0 {
        st
    } else {
        run_spec(step_spec(st, items[0], tokens, cfg), items.drop_first(), tokens, cfg)
    }
}

/// A store's view-level run state, counts zeroed.
pub open spec fn start_of(st: Store) -> RunV {
    RunV {
        recs: addrs_view(st.records@),
        next: st.next_id,
        created: 0,
        updated: 0,
        merged: 0,
        unchanged: 0,
        errors: 0,
    }
}

/// Run the conflation pipeline: for each incoming record, retrieve
/// candidates from the store, decide, apply, and count.  Malformed
/// records and ambiguous matches are counted as routed errors; the run
/// never aborts on one record.
#[verifier::loop_isolation(false)]
pub fn conflate(incoming: &Vec<Incoming>, store: &mut Store, ctx: &Context, cfg: &ConflateConfig)
    -> (s: Summary)
    requires
        cfg.wf(),
        old(store).wf(),
        old(store).next_id + incoming@.len() < i64::MAX,
    ensures
        s.created + s.updated + s.merged + s.unchanged + s.errors == incoming@.len(),
        s.errors >= count_malformed(incoming@),
        final(store).wf(),
        ({
            let end = run_spec(start_of(*old(store)), incoming@, tokens_view(ctx.tokens@), *cfg);
            &&& addrs_view(final(store).records@) == end.recs
            &&& final(store).next_id == end.next
            &&& s.created == end.created
            &&& s.updated == end.updated
            &&& s.merged == end.merged
            &&& s.unchanged == end.unchanged
            &&& s.errors == end.errors
        }),
{
    let ghost tv = tokens_view(ctx.tokens@);
    let ghost init = start_of(*old(store));
    let mut s = Summary { created: 0, updated: 0, merged: 0, unchanged: 0, errors: 0 };
    let mut i: usize = 0;
    proof {
        assert(incoming@.subrange(0, 0) =~= Seq::<Incoming>::empty());
        assert(incoming@.subrange(0, incoming@.len() as int) =~= incoming@);
    }
    while i < incoming.len()
        invariant
            i <= incoming@.len(),
            s.created + s.updated + s.merged + s.unchanged + s.errors == i,
            s.errors >= count_malformed(incoming@.subrange(0, i as int)),
            store.wf(),
            store.next_id <= old(store).next_id + i,
            (run_spec(init, incoming@, tv, *cfg) == run_spec(
                RunV {
                    recs: addrs_view(store.records@),
                    next: store.next_id,
                    created: s.created as int,
                    updated: s.updated as int,
                    merged: s.merged as int,
                    unchanged: s.unchanged as int,
                    errors: s.errors as int,
                },
                incoming@.subrange(i as int, incoming@.len() as int),
                tv,
                *cfg,
            )),
        decreases incoming@.len() - i,
    {
        let ghost cur = RunV {
            recs: addrs_view(store.records@),
            next: store.next_id,
            created: s.created as int,
            updated: s.updated as int,
            merged: s.merged as int,
            unchanged: s.unchanged as int,
            errors: s.errors as int,
        };
        let ghost item = incoming@[i as int];
        let ghost stepped = step_spec(cur, item, tv, *cfg);
        proof {
            let pre = incoming@.subrange(0, i as int);
            let here = incoming@.subrange(0, i + 1);
            assert(here.drop_last() =~= pre);
            assert(here.last() == incoming@[i as int]);
            let rest = incoming@.subrange(i as int, incoming@.len() as int);
            assert(rest[0] == item);
            assert(rest.drop_first() =~= incoming@.subrange(i + 1, incoming@.len() as int));
            assert(run_spec(init, incoming@, tv, *cfg) == run_spec(
                stepped,
                incoming@.subrange(i + 1, incoming@.len() as int),
                tv,
                *cfg,
            ));
        }
        match &incoming[i] {
            Incoming::Malformed(_) => {
                s.errors = s.errors + 1;
                assert(stepped.errors == s.errors as int && stepped.recs == cur.recs);
            },
            Incoming::Feature(addr) => {
                let cands = find_candidates(addr, &store.records, cfg.match_dist);
                let ghost sp_cands = crate::retrieve::retrieved(cur.recs, addr@, cfg.match_dist);
                proof {
                    assert(addrs_view(cands@) == sp_cands);
                    assert forall|k: int| 0 <= k < cands@.len() implies (#[trigger] cands@[k].id)
                        is Some by {
                        let j = choose|j: int|
                            0 <= j < store.records@.len() && (cands@[k])@ == store.records@[j]@
                                && cands@[k].id == store.records@[j].id;
                        assert(store.records@[j].id is Some);
                    }
                }
                match compare(addr, &cands, ctx, cfg) {
                    Err(_) => {
                        s.errors = s.errors + 1;
                        proof {
                            assert(sp_cands.len() > 1 && !crate::conflate::consistent(
                                addr@,
                                sp_cands,
                                tv,
                                *cfg,
                            ));
                            assert(stepped.errors == s.errors as int && stepped.recs == cur.recs);
                        }
                    },
                    Ok(action) => {
                        let ghost prev = *store;
                        proof {
                            let cv = addrs_view(cands@);
                            match &action {
                                Action::Update(id) => {
                                    let j = choose|j: int|
                                        0 <= j < prev.records@.len() && (cands@[0])@
                                            == prev.records@[j]@ && cands@[0].id
                                            == prev.records@[j].id;
                                    assert(prev.records@[j].id is Some);
                                },
                                Action::Merge { ids: _, merged } => {
                                    crate::conflate::lemma_min_from(i64::MAX, cv);
                                    let j = choose|j: int|
                                        0 <= j < prev.records@.len() && (cands@[0])@
                                            == prev.records@[j]@ && cands@[0].id
                                            == prev.records@[j].id;
                                    assert(cv[0] == cands@[0]@);
                                    assert(prev.records@[j].id is Some);
                                    assert(merged@.id.unwrap() < prev.next_id);
                                },
                                _ => {},
                            }
                        }
                        apply_action(store, addr, &action);
                        proof {
                            lemma_apply_keeps_ids(prev, *store, addr@, action);
                        }
                        match action {
                            Action::Create => {
                                s.created = s.created + 1;
                                proof {
                                    assert(sp_cands.len() == 0);
                                    assert(addrs_view(store.records@) == cur.recs.push(
                                        revised(addr@, cur.next),
                                    ));
                                    assert(stepped.recs == addrs_view(store.records@));
                                    assert(stepped.next == store.next_id);
                                    assert(stepped.created == s.created as int);
                                }
                            },
                            Action::Update(id) => {
                                s.updated = s.updated + 1;
                                proof {
                                    assert(sp_cands.len() == 1 && !crate::conflate::addr_identical(
                                        addr@,
                                        sp_cands[0],
                                        tv,
                                        *cfg,
                                    ));
                                    assert(Some(id) == sp_cands[0].id);
                                    assert(addrs_view(store.records@) =~= update_recs(
                                        cur.recs,
                                        addr@,
                                        id,
                                    ));
                                    assert(stepped.recs == addrs_view(store.records@));
                                    assert(stepped.next == store.next_id);
                                    assert(stepped.updated == s.updated as int);
                                }
                            },
                            Action::Merge { ids, merged } => {
                                s.merged = s.merged + 1;
                                proof {
                                    assert(sp_cands.len() > 1 && crate::conflate::consistent(
                                        addr@,
                                        sp_cands,
                                        tv,
                                        *cfg,
                                    ));
                                    assert(ids@ == crate::conflate::ids_of(sp_cands));
                                    assert(merged@ == crate::conflate::merged_spec(
                                        addr@,
                                        sp_cands,
                                        tv,
                                    ));
                                    assert(addrs_view(store.records@) == purge(
                                        cur.recs,
                                        crate::conflate::ids_of(sp_cands),
                                    ).push(crate::conflate::merged_spec(addr@, sp_cands, tv)));
                                    assert(stepped.recs == addrs_view(store.records@));
                                    assert(stepped.next == store.next_id);
                                    assert(stepped.merged == s.merged as int);
                                }
                            },
                            Action::NoAction => {
                                s.unchanged = s.unchanged + 1;
                                proof {
                                    assert(sp_cands.len() == 1 && crate::conflate::addr_identical(
                                        addr@,
                                        sp_cands[0],
                                        tv,
                                        *cfg,
                                    ));
                                    assert(stepped.recs == cur.recs);
                                    assert(stepped.unchanged == s.unchanged as int);
                                }
                            },
                        }
                    },
                }
            },
        }
        proof {
            assert(stepped == (RunV {
                recs: addrs_view(store.records@),
                next: store.next_id,
                created: s.created as int,
                updated: s.updated as int,
                merged: s.merged as int,
                unchanged: s.unchanged as int,
                errors: s.errors as int,
            }));
        }
        i = i + 1;
    }
    proof {
        assert(incoming@.subrange(incoming@.len() as int, incoming@.len() as int) =~= Seq::<
            Incoming,
        >::empty());
    }
    s
}

/// Every element of a filtered sequence occurs in the original.
proof fn lemma_filter_sub(s: Seq<AddressV>, pred: spec_fn(AddressV) -> bool)
    ensures
        forall|i: int| 0 <= i < s.filter(pred).len() ==> s.contains(#[trigger] s.filter(pred)[i]),
    decreases s.len(),
{
    reveal(Seq::filter);
    if s.len() > 0 {
        lemma_filter_sub(s.drop_last(), pred);
        let f = s.filter(pred);
        let g = s.drop_last().filter(pred);
        assert forall|i: int| 0 <= i < f.len() implies s.contains(#[trigger] f[i]) by {
            if pred(s.last()) && i == f.len() - 1 {
                assert(f[i] == s.last());
                assert(s[s.len() - 1] == s.last());
            } else {
                assert(f[i] == g[i]);
                assert(s.drop_last().contains(g[i]));
                let j = choose|j: int| 0 <= j < s.drop_last().len() && s.drop_last()[j] == g[i];
                assert(s[j] == g[i]);
            }
        }
    }
}

/// Applying an action keeps the store's id discipline, as long as the
/// replacement records carry ids below the frontier.
proof fn lemma_apply_keeps_ids(prev: Store, cur: Store, inc: AddressV, action: Action)
    requires
        prev.wf(),
        prev.next_id < i64::MAX,
        action is Create ==> addrs_view(cur.records@) == addrs_view(prev.records@).push(
            revised(inc, prev.next_id),
        ) && cur.next_id == prev.next_id + 1,
        (action matches Action::Update(id) ==> id < prev.next_id && cur.next_id
            == prev.next_id && addrs_view(cur.records@).len() == addrs_view(prev.records@).len()
            && (forall|i: int|
            0 <= i < addrs_view(prev.records@).len() ==> #[trigger] addrs_view(cur.records@)[i] == (
            if addrs_view(prev.records@)[i].id == Some(id) {
                revised(inc, id)
            } else {
                addrs_view(prev.records@)[i]
            }))),
        (action matches Action::Merge { ids, merged } ==> cur.next_id == prev.next_id
            && merged@.id is Some && merged@.id.unwrap() < prev.next_id
            && addrs_view(cur.records@) == purge(addrs_view(prev.records@), ids@).push(
            merged@,
        )),
        action is NoAction ==> cur == prev,
    ensures
        cur.wf(),
{
    let av = addrs_view(cur.records@);
    let pv = addrs_view(prev.records@);
    assert forall|i: int| 0 <= i < cur.records@.len() implies (#[trigger] cur.records@[i].id)
        is Some && cur.records@[i].id.unwrap() < cur.next_id by {
        assert(av[i] == cur.records@[i]@);
        match action {
            Action::Create => {
                if i < av.len() - 1 {
                    assert(av[i] == pv[i]);
                    assert(pv[i] == prev.records@[i]@);
                }
            },
            Action::Update(_) => {
                assert(pv[i] == prev.records@[i]@);
            },
            Action::Merge { ids, merged } => {
                if i < av.len() - 1 {
                    let pred = |c: AddressV| !(c.id is Some && ids@.contains(c.id.unwrap()));
                    let f = purge(pv, ids@);
                    assert(f == pv.filter(pred));
                    assert(av[i] == f[i]);
                    lemma_filter_sub(pv, pred);
                    assert(pv.contains(f[i]));
                    let j = choose|j: int| 0 <= j < pv.len() && pv[j] == f[i];
                    assert(pv[j] == prev.records@[j]@);
                }
            },
            Action::NoAction => {
            },
        }
    }
}

} // verus!
