//! The conflation decision engine.
//!
//! `compare` is a pure function from one incoming address and its
//! candidate set to an action: `Create` when no candidate exists,
//! `NoAction` when the sole candidate is materially identical, `Update`
//! when it differs, `Merge` when several candidates are mutually
//! consistent duplicates, and an ambiguous-match error when they are not.
//! All thresholds come from `ConflateConfig`, in fixed-point coordinate
//! units (see `geomath`), with inclusive boundaries; nothing here touches
//! a store.

use vstd::prelude::*;
use crate::entity::{Address, AddressV, Name, NameV, Context, names_view, tokens_view, opt_bytes};
use crate::entity::clone_names;
use crate::geomath::within;
use crate::geomath::within_exec;
use crate::normalize::{
    names_equiv, names_overlap, names_equiv_exec, names_overlap_exec, norm_of, has_norm,
    has_norm_exec, norm_name_exec,
};
use crate::textutil::{lower_bytes, lower_vec, bytes_eq, string_bytes};

verus! {

/// Decision thresholds, in fixed-point coordinate units.
pub struct ConflateConfig {
    /// Two records farther apart than this do not correspond.
    pub match_dist: i64,
    /// Identity demands at most this distance (a tight bound).
    pub ident_dist: i64,
}

impl ConflateConfig {
    /// Thresholds are ordered and non-negative.
    pub open spec fn wf(self) -> bool {
        0 <= self.ident_dist <= self.match_dist
    }

    /// The inherited defaults: 0.02 degrees to correspond, and a
    /// hundred fixed-point units (ten microdegrees) to count as
    /// identical.
    pub fn new() -> (r: ConflateConfig)
        ensures
            r.wf(),
            r.match_dist == 200_000,
            r.ident_dist == 100,
    {
        ConflateConfig { match_dist: 200_000, ident_dist: 100 }
    }
}

/// The error taxonomy of a conflation run.
pub enum ConflateError {
    /// A required option is missing or invalid; fatal before any work.
    Configuration(String),
    /// The persistent store cannot be reached; fatal.
    Connectivity(String),
    /// One record failed; recoverable, routed to the error sink.
    Record(String),
    /// The candidate set cannot be resolved to one decision.
    Ambiguous,
}

/// What the pipeline does with one incoming record.
pub enum Action {
    /// No persistent counterpart: insert as new.
    Create,
    /// Exactly one counterpart, which differs: revise it, keeping its id.
    Update(i64),
    /// Several mutually consistent counterparts: collapse them into the
    /// resolved record.
    Merge { ids: Vec<i64>, merged: Address },
    /// An exact-enough match exists already: write nothing.
    NoAction,
}

/// View of a sequence of addresses.
pub open spec fn addrs_view(v: Seq<Address>) -> Seq<AddressV> {
    Seq::new(v.len(), |i: int| v[i]@)
}

/// House numbers compare case-normalized.
pub open spec fn number_eq(a: Seq<u8>, b: Seq<u8>) -> bool {
    lower_bytes(a) == lower_bytes(b)
}

/// Executable case-normalized number comparison.
pub fn number_eq_exec(a: &String, b: &String) -> (r: bool)
    ensures
        r == number_eq(crate::textutil::str_bytes(a@), crate::textutil::str_bytes(b@)),
{
    let la = lower_vec(&string_bytes(a));
    let lb = lower_vec(&string_bytes(b));
    bytes_eq(&la, &lb)
}

/// Two records plausibly describe the same entity: same number, within
/// the match distance, sharing at least one normalized name.
pub open spec fn addr_matches(
    x: AddressV,
    y: AddressV,
    tokens: Seq<(Seq<u8>, Seq<u8>)>,
    cfg: ConflateConfig,
) -> bool {
    number_eq(x.number, y.number) && within(x.geom, y.geom, cfg.match_dist) && names_overlap(
        x.names,
        y.names,
        tokens,
    )
}

/// Two records are materially identical: same number, within the tight
/// identity distance, equivalent name sets, equal properties and source.
pub open spec fn addr_identical(
    x: AddressV,
    y: AddressV,
    tokens: Seq<(Seq<u8>, Seq<u8>)>,
    cfg: ConflateConfig,
) -> bool {
    number_eq(x.number, y.number) && within(x.geom, y.geom, cfg.ident_dist) && names_equiv(
        x.names,
        y.names,
        tokens,
    ) && x.props == y.props && x.source == y.source
}

/// The candidates, pairwise and against the incoming record, all
/// describe one entity.
pub open spec fn consistent(
    inc: AddressV,
    cands: Seq<AddressV>,
    tokens: Seq<(Seq<u8>, Seq<u8>)>,
    cfg: ConflateConfig,
) -> bool {
    (forall|i: int| 0 <= i < cands.len() ==> addr_matches(inc, #[trigger] cands[i], tokens, cfg))
        && (forall|i: int, j: int|
        0 <= i < j < cands.len() ==> addr_matches(#[trigger] cands[i], #[trigger] cands[j], tokens, cfg))
}

/// The candidate ids, in order.
pub open spec fn ids_of(cands: Seq<AddressV>) -> Seq<i64> {
    cands.map_values(|c: AddressV| c.id.unwrap())
}

/// Fold of the least id, starting from `acc`.
pub open spec fn min_id_from(acc: i64, cands: Seq<AddressV>) -> i64
    decreases cands.len(),
{
    if cands.len() == 0 {
        acc
    } else {
        min_id_from(
            if cands[0].id.unwrap() < acc {
                cands[0].id.unwrap()
            } else {
                acc
            },
            cands.drop_first(),
        )
    }
}

/// The folded least id never exceeds its seed, nor the first id.
pub proof fn lemma_min_from(acc: i64, s: Seq<AddressV>)
    ensures
        min_id_from(acc, s) <= acc,
        s.len() > 0 ==> min_id_from(acc, s) <= s[0].id.unwrap(),
    decreases s.len(),
{
    if s.len() > 0 {
        lemma_min_from(
            if s[0].id.unwrap() < acc {
                s[0].id.unwrap()
            } else {
                acc
            },
            s.drop_first(),
        );
    }
}

/// Lexicographic byte order.
pub open spec fn bytes_lt(a: Seq<u8>, b: Seq<u8>) -> bool
    decreases a.len(),
{
    if b.len() == 0 {
        false
    } else if a.len() == 0 {
        true
    } else if a[0] < b[0] {
        true
    } else if a[0] > b[0] {
        false
    } else {
        bytes_lt(a.drop_first(), b.drop_first())
    }
}

/// The later of two optional source tags (byte order; ties keep `cur`).
pub open spec fn newer(cur: Option<Seq<u8>>, cand: Option<Seq<u8>>) -> Option<Seq<u8>> {
    match cand {
        None => cur,
        Some(c) => match cur {
            None => Some(c),
            Some(u) => if bytes_lt(u, c) {
                Some(c)
            } else {
                Some(u)
            },
        },
    }
}

/// The latest source tag among the incoming record and the candidates.
pub open spec fn latest_source(init: Option<Seq<u8>>, cands: Seq<AddressV>) -> Option<Seq<u8>>
    decreases cands.len(),
{
    if cands.len() == 0 {
        init
    } else {
        latest_source(newer(init, cands[0].source), cands.drop_first())
    }
}

/// All candidate names, concatenated in candidate order.
pub open spec fn all_names(cands: Seq<AddressV>) -> Seq<NameV>
    decreases cands.len(),
{
    if cands.len() == 0 {
        Seq::empty()
    } else {
        cands[0].names + all_names(cands.drop_first())
    }
}

/// `acc` already carries a name with this normalized form.
pub open spec fn contains_norm(
    acc: Seq<NameV>,
    n: NameV,
    tokens: Seq<(Seq<u8>, Seq<u8>)>,
) -> bool {
    has_norm(acc, norm_of(n, tokens), tokens)
}

/// Union of names: keep `acc`, then append each extra name whose
/// normalized form is not yet present.
pub open spec fn add_names(
    acc: Seq<NameV>,
    extra: Seq<NameV>,
    tokens: Seq<(Seq<u8>, Seq<u8>)>,
) -> Seq<NameV>
    decreases extra.len(),
{
    if extra.len() == 0 {
        acc
    } else {
        add_names(
            if contains_norm(acc, extra[0], tokens) {
                acc
            } else {
                acc.push(extra[0])
            },
            extra.drop_first(),
            tokens,
        )
    }
}

/// The resolved record of a merge: union of names, the latest source,
/// the incoming geometry, number and properties, under the least id.
pub open spec fn merged_spec(
    inc: AddressV,
    cands: Seq<AddressV>,
    tokens: Seq<(Seq<u8>, Seq<u8>)>,
) -> AddressV {
    AddressV {
        id: Some(min_id_from(i64::MAX, cands)),
        number: inc.number,
        names: add_names(inc.names, all_names(cands), tokens),
        source: latest_source(inc.source, cands),
        output: inc.output,
        interpolate: inc.interpolate,
        props: inc.props,
        geom: inc.geom,
    }
}

// --------------------------------------------------------- exec helpers
/// Executable lexicographic byte comparison.
#[verifier::loop_isolation(false)]
fn bytes_lt_exec(a: &Vec<u8>, b: &Vec<u8>) -> (r: bool)
    ensures
        r == bytes_lt(a@, b@),
{
    let mut i: usize = 0;
    proof {
        assert(a@.subrange(0, a@.len() as int) =~= a@);
        assert(b@.subrange(0, b@.len() as int) =~= b@);
    }
    while i < a.len() && i < b.len()
        invariant
            i <= a@.len(),
            i <= b@.len(),
            bytes_lt(a@, b@) == bytes_lt(
                a@.subrange(i as int, a@.len() as int),
                b@.subrange(i as int, b@.len() as int),
            ),
        decreases a@.len() - i,
    {
        proof {
            let ra = a@.subrange(i as int, a@.len() as int);
            let rb = b@.subrange(i as int, b@.len() as int);
            assert(ra[0] == a@[i as int] && rb[0] == b@[i as int]);
            assert(ra.drop_first() =~= a@.subrange(i + 1, a@.len() as int));
            assert(rb.drop_first() =~= b@.subrange(i + 1, b@.len() as int));
        }
        if a[i] < b[i] {
            return true;
        }
        if a[i] > b[i] {
            return false;
        }
        i = i + 1;
    }
    proof {
        let ra = a@.subrange(i as int, a@.len() as int);
        let rb = b@.subrange(i as int, b@.len() as int);
        assert(ra.len() == 0 || rb.len() == 0);
    }
    i < b.len()
}

/// The later of two optional source tags.
fn newer_exec(cur: Option<String>, cand: &Option<String>) -> (r: Option<String>)
    ensures
        opt_bytes(r) == newer(opt_bytes(cur), opt_bytes(*cand)),
{
    match cand {
        None => cur,
        Some(c) => match cur {
            None => Some(c.clone()),
            Some(u) => {
                let ub = string_bytes(&u);
                let cb = string_bytes(c);
                if bytes_lt_exec(&ub, &cb) {
                    Some(c.clone())
                } else {
                    Some(u)
                }
            },
        },
    }
}

/// The latest source among `init` and the candidates' sources.
#[verifier::loop_isolation(false)]
fn latest_source_exec(init: &Option<String>, cands: &Vec<Address>) -> (r: Option<String>)
    ensures
        opt_bytes(r) == latest_source(opt_bytes(*init), addrs_view(cands@)),
{
    let mut cur: Option<String> = (match init {
        Some(s) => Some(s.clone()),
        None => None,
    });
    let ghost cv = addrs_view(cands@);
    let mut i: usize = 0;
    proof {
        assert(cv.subrange(0, cv.len() as int) =~= cv);
    }
    while i < cands.len()
        invariant
            i <= cands@.len(),
            latest_source(opt_bytes(*init), cv) == latest_source(
                opt_bytes(cur),
                cv.subrange(i as int, cv.len() as int),
            ),
        decreases cands@.len() - i,
    {
        proof {
            let rest = cv.subrange(i as int, cv.len() as int);
            assert(rest[0] == cv[i as int]);
            assert(rest.drop_first() =~= cv.subrange(i + 1, cv.len() as int));
        }
        cur = newer_exec(cur, &cands[i].source);
        i = i + 1;
    }
    cur
}

/// Append clones of all of `src` to `dst`.
fn append_names(dst: &mut Vec<Name>, src: &Vec<Name>)
    ensures
        final(dst)@ == old(dst)@ + src@,
{
    let mut i: usize = 0;
    while i < src.len()
        invariant
            i <= src@.len(),
            dst@ == old(dst)@ + src@.subrange(0, i as int),
        decreases src@.len() - i,
    {
        dst.push(src[i].clone());
        assert(dst@ =~= old(dst)@ + src@.subrange(0, i + 1));
        i = i + 1;
    }
    assert(dst@ =~= old(dst)@ + src@);
}

proof fn lemma_all_names_snoc(cands: Seq<AddressV>, c: AddressV)
    ensures
        all_names(cands.push(c)) == all_names(cands) + c.names,
    decreases cands.len(),
{
    if cands.len() == 0 {
        assert(cands.push(c)[0] == c);
        assert(cands.push(c).drop_first() =~= Seq::<AddressV>::empty());
        assert(all_names(Seq::<AddressV>::empty()) =~= Seq::<NameV>::empty());
        assert(all_names(cands) =~= Seq::<NameV>::empty());
        assert(all_names(cands.push(c)) =~= all_names(cands) + c.names);
    } else {
        lemma_all_names_snoc(cands.drop_first(), c);
        assert(cands.push(c).drop_first() =~= cands.drop_first().push(c));
        assert(cands.push(c)[0] == cands[0]);
        assert(all_names(cands.push(c)) =~= all_names(cands) + c.names);
    }
}

/// All candidate names, cloned into one vector.
#[verifier::loop_isolation(false)]
fn collect_names(cands: &Vec<Address>) -> (r: Vec<Name>)
    ensures
        names_view(r@) == all_names(addrs_view(cands@)),
{
    let mut r: Vec<Name> = Vec::new();
    let mut i: usize = 0;
    while i < cands.len()
        invariant
            i <= cands@.len(),
            names_view(r@) == all_names(addrs_view(cands@).subrange(0, i as int)),
        decreases cands@.len() - i,
    {
        append_names(&mut r, &cands[i].names);
        proof {
            let pre = addrs_view(cands@).subrange(0, i as int);
            let cur = addrs_view(cands@).subrange(0, i + 1);
            assert(cur.drop_last() =~= pre);
            assert(cur =~= pre.push(cands@[i as int]@));
            lemma_all_names_snoc(pre, cands@[i as int]@);
            assert(names_view(r@) =~= all_names(pre) + cands@[i as int]@.names);
        }
        i = i + 1;
    }
    proof {
        assert(addrs_view(cands@).subrange(0, cands@.len() as int) =~= addrs_view(cands@));
    }
    r
}

/// Union of names under the context, executable.
#[verifier::loop_isolation(false)]
fn add_names_exec(base: &Vec<Name>, extra: &Vec<Name>, ctx: &Context) -> (r: Vec<Name>)
    ensures
        names_view(r@) == add_names(
            names_view(base@),
            names_view(extra@),
            tokens_view(ctx.tokens@),
        ),
{
    let ghost tv = tokens_view(ctx.tokens@);
    let ghost ev = names_view(extra@);
    let mut acc = clone_names(base);
    let mut i: usize = 0;
    proof {
        assert(ev.subrange(0, ev.len() as int) =~= ev);
    }
    while i < extra.len()
        invariant
            i <= extra@.len(),
            add_names(names_view(base@), ev, tv) == add_names(
                names_view(acc@),
                ev.subrange(i as int, ev.len() as int),
                tv,
            ),
        decreases extra@.len() - i,
    {
        proof {
            let rest = ev.subrange(i as int, ev.len() as int);
            assert(rest[0] == ev[i as int]);
            assert(rest.drop_first() =~= ev.subrange(i + 1, ev.len() as int));
        }
        let norm = norm_name_exec(&extra[i].text, ctx);
        let present = has_norm_exec(&acc, &norm, ctx);
        assert(present == contains_norm(names_view(acc@), ev[i as int], tv));
        if !present {
            let ghost old_acc = acc@;
            acc.push(extra[i].clone());
            assert(names_view(acc@) =~= names_view(old_acc).push(ev[i as int]));
        }
        i = i + 1;
    }
    proof {
        assert(ev.subrange(ev.len() as int, ev.len() as int) =~= Seq::<NameV>::empty());
    }
    acc
}

/// Property maps compare by their byte views.
fn props_eq_exec(a: &crate::entity::Props, b: &crate::entity::Props) -> (r: bool)
    ensures
        r == (a@ == b@),
{
    if a.entries.len() != b.entries.len() {
        assert(a@.len() != b@.len());
        return false;
    }
    let mut i: usize = 0;
    while i < a.entries.len()
        invariant
            i <= a.entries@.len(),
            a@.len() == b@.len(),
            a@.len() == a.entries@.len(),
            b@.len() == b.entries@.len(),
            forall|j: int| 0 <= j < i ==> a@[j] == b@[j],
        decreases a.entries@.len() - i,
    {
        let ka = string_bytes(&a.entries[i].0);
        let kb = string_bytes(&b.entries[i].0);
        if !bytes_eq(&ka, &kb) {
            assert(a@[i as int].0 != b@[i as int].0);
            return false;
        }
        let va = string_bytes(&a.entries[i].1);
        let vb = string_bytes(&b.entries[i].1);
        if !bytes_eq(&va, &vb) {
            assert(a@[i as int].1 != b@[i as int].1);
            return false;
        }
        assert(a@[i as int] == b@[i as int]);
        i = i + 1;
    }
    assert(a@ =~= b@);
    true
}

/// Optional sources compare by their byte views.
fn source_eq_exec(a: &Option<String>, b: &Option<String>) -> (r: bool)
    ensures
        r == (opt_bytes(*a) == opt_bytes(*b)),
{
    match (a, b) {
        (None, None) => true,
        (Some(x), Some(y)) => {
            let xb = string_bytes(x);
            let yb = string_bytes(y);
            bytes_eq(&xb, &yb)
        },
        _ => false,
    }
}

/// Executable correspondence test between two addresses.
pub fn addr_matches_exec(x: &Address, y: &Address, ctx: &Context, cfg: &ConflateConfig) -> (r:
    bool)
    requires
        cfg.wf(),
    ensures
        r == addr_matches(x@, y@, tokens_view(ctx.tokens@), *cfg),
{
    if !number_eq_exec(&x.number, &y.number) {
        return false;
    }
    if !within_exec(x.geom, y.geom, cfg.match_dist) {
        return false;
    }
    names_overlap_exec(&x.names, &y.names, ctx)
}

/// Executable material-identity test between two addresses.
pub fn addr_identical_exec(x: &Address, y: &Address, ctx: &Context, cfg: &ConflateConfig) -> (r:
    bool)
    requires
        cfg.wf(),
    ensures
        r == addr_identical(x@, y@, tokens_view(ctx.tokens@), *cfg),
{
    if !number_eq_exec(&x.number, &y.number) {
        return false;
    }
    if !within_exec(x.geom, y.geom, cfg.ident_dist) {
        return false;
    }
    if !names_equiv_exec(&x.names, &y.names, ctx) {
        return false;
    }
    if !props_eq_exec(&x.props, &y.props) {
        return false;
    }
    source_eq_exec(&x.source, &y.source)
}

/// Executable mutual-consistency test of the candidate set.
#[verifier::loop_isolation(false)]
fn consistent_exec(inc: &Address, cands: &Vec<Address>, ctx: &Context, cfg: &ConflateConfig) -> (r:
    bool)
    requires
        cfg.wf(),
    ensures
        r == consistent(inc@, addrs_view(cands@), tokens_view(ctx.tokens@), *cfg),
{
    let ghost cv = addrs_view(cands@);
    let ghost tv = tokens_view(ctx.tokens@);
    let mut i: usize = 0;
    while i < cands.len()
        invariant
            i <= cands@.len(),
            forall|j: int| 0 <= j < i ==> addr_matches(inc@, #[trigger] cv[j], tv, *cfg),
        decreases cands@.len() - i,
    {
        if !addr_matches_exec(inc, &cands[i], ctx, cfg) {
            assert(!addr_matches(inc@, cv[i as int], tv, *cfg));
            return false;
        }
        i = i + 1;
    }
    let mut p: usize = 0;
    while p < cands.len()
        invariant
            p <= cands@.len(),
            forall|a: int, b: int|
                0 <= a < p && a < b < cv.len() ==> addr_matches(
                    #[trigger] cv[a],
                    #[trigger] cv[b],
                    tv,
                    *cfg,
                ),
        decreases cands@.len() - p,
    {
        let mut q: usize = p + 1;
        while q < cands.len()
            invariant
                p < q <= cands@.len(),
                forall|b: int| p < b < q ==> addr_matches(cv[p as int], #[trigger] cv[b], tv, *cfg),
            decreases cands@.len() - q,
        {
            if !addr_matches_exec(&cands[p], &cands[q], ctx, cfg) {
                assert(!addr_matches(cv[p as int], cv[q as int], tv, *cfg));
                return false;
            }
            q = q + 1;
        }
        p = p + 1;
    }
    true
}

/// Decide the action for one incoming address against its candidates.
///
/// Pure: no store access.  The candidate order does not affect which
/// branch is taken; it only orders the ids and names a merge carries.
#[verifier::loop_isolation(false)]
pub fn compare(
    potential: &Address,
    persistents: &Vec<Address>,
    ctx: &Context,
    cfg: &ConflateConfig,
) -> (r: Result<Action, ConflateError>)
    requires
        cfg.wf(),
        forall|i: int| 0 <= i < persistents@.len() ==> (#[trigger] persistents@[i].id) is Some,
    ensures
        persistents@.len() == 0 ==> (r matches Ok(a) && a is Create),
        persistents@.len() == 1 && addr_identical(
            potential@,
            addrs_view(persistents@)[0],
            tokens_view(ctx.tokens@),
            *cfg,
        ) ==> (r matches Ok(a) && a is NoAction),
        persistents@.len() == 1 && !addr_identical(
            potential@,
            addrs_view(persistents@)[0],
            tokens_view(ctx.tokens@),
            *cfg,
        ) ==> (r matches Ok(a) && a matches Action::Update(id) && Some(id) == persistents@[0].id),
        persistents@.len() > 1 && consistent(
            potential@,
            addrs_view(persistents@),
            tokens_view(ctx.tokens@),
            *cfg,
        ) ==> (r matches Ok(a) && a matches Action::Merge { ids, merged } && ids@ == ids_of(
            addrs_view(persistents@),
        ) && merged@ == merged_spec(potential@, addrs_view(persistents@), tokens_view(ctx.tokens@))),
        persistents@.len() > 1 && !consistent(
            potential@,
            addrs_view(persistents@),
            tokens_view(ctx.tokens@),
            *cfg,
        ) ==> (r matches Err(e) && e is Ambiguous),
        r matches Ok(a) ==> (a matches Action::Update(id) ==> persistents@.len() == 1 && Some(id)
            == persistents@[0].id),
        r matches Ok(a) ==> (a matches Action::Merge { ids, merged } ==> persistents@.len() > 1
            && ids@ == ids_of(addrs_view(persistents@)) && merged@ == merged_spec(
            potential@,
            addrs_view(persistents@),
            tokens_view(ctx.tokens@),
        )),
{
    let ghost cv = addrs_view(persistents@);
    let ghost tv = tokens_view(ctx.tokens@);
    if persistents.len() == 0 {
        return Ok(Action::Create);
    }
    if persistents.len() == 1 {
        if addr_identical_exec(potential, &persistents[0], ctx, cfg) {
            return Ok(Action::NoAction);
        }
        let id = (match persistents[0].id {
            Some(id) => id,
            None => 0,
        });
        return Ok(Action::Update(id));
    }
    if !consistent_exec(potential, persistents, ctx, cfg) {
        return Err(ConflateError::Ambiguous);
    }
    let mut ids: Vec<i64> = Vec::new();
    let mut least: i64 = i64::MAX;
    let mut i: usize = 0;
    proof {
        assert(cv.subrange(0, cv.len() as int) =~= cv);
    }
    while i < persistents.len()
        invariant
            i <= persistents@.len(),
            ids@.len() == i,
            forall|j: int| 0 <= j < i ==> ids@[j] == ids_of(cv)[j],
            min_id_from(i64::MAX, cv) == min_id_from(least, cv.subrange(i as int, cv.len() as int)),
        decreases persistents@.len() - i,
    {
        proof {
            let rest = cv.subrange(i as int, cv.len() as int);
            assert(rest[0] == cv[i as int]);
            assert(rest.drop_first() =~= cv.subrange(i + 1, cv.len() as int));
        }
        let id = (match persistents[i].id {
            Some(id) => id,
            None => 0,
        });
        ids.push(id);
        if id < least {
            least = id;
        }
        i = i + 1;
    }
    proof {
        assert(cv.subrange(cv.len() as int, cv.len() as int) =~= Seq::<AddressV>::empty());
        assert(ids@ =~= ids_of(cv));
    }
    let extra = collect_names(persistents);
    let merged_names = add_names_exec(&potential.names, &extra, ctx);
    let merged_source = latest_source_exec(&potential.source, persistents);
    let merged = Address {
        id: Some(least),
        number: potential.number.clone(),
        names: merged_names,
        source: merged_source,
        output: potential.output,
        interpolate: potential.interpolate,
        props: potential.props.clone(),
        geom: potential.geom,
    };
    assert(merged@ == merged_spec(potential@, cv, tv));
    Ok(Action::Merge { ids, merged })
}

} // verus!
