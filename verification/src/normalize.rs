//! Token-level name normalization and name-set comparison.
//!
//! A name is normalized by ASCII lower-casing its bytes, splitting on
//! ASCII whitespace, and mapping each token through the context's token
//! table (synonym/abbreviation rules).  Two names are the same street
//! name when their normalized token lists are equal.

use vstd::prelude::*;
use crate::textutil::{lower_bytes, lower_vec, bytes_eq, string_bytes, str_bytes};
use crate::entity::{Name, NameV, Context, names_view, tokens_view};
use vstd::slice::{slice_subrange, slice_to_vec};

verus! {

/// ASCII whitespace.
pub open spec fn is_ws(b: u8) -> bool {
    b == 0x20 || b == 0x09 || b == 0x0A || b == 0x0D
}

/// Length of the leading run of non-whitespace bytes.
pub open spec fn run_len(s: Seq<u8>) -> nat
    decreases s.len(),
{
    if s.len() == 0 || is_ws(s[0]) {
        0
    } else {
        1 + run_len(s.drop_first())
    }
}

proof fn lemma_run_len_le(s: Seq<u8>)
    ensures
        run_len(s) <= s.len(),
        s.len() > 0 && !is_ws(s[0]) ==> run_len(s) >= 1,
    decreases s.len(),
{
    if s.len() > 0 && !is_ws(s[0]) {
        lemma_run_len_le(s.drop_first());
    }
}

/// The run has exactly the length to the first whitespace byte (or end).
proof fn lemma_run_len_at(s: Seq<u8>, k: int)
    requires
        0 <= k <= s.len(),
        forall|i: int| 0 <= i < k ==> !is_ws(#[trigger] s[i]),
        k == s.len() || is_ws(s[k]),
    ensures
        run_len(s) == k,
    decreases k,
{
    if k == 0 {
    } else {
        assert(!is_ws(s[0]));
        assert forall|i: int| 0 <= i < k - 1 implies !is_ws(#[trigger] s.drop_first()[i]) by {
            assert(s.drop_first()[i] == s[i + 1]);
        }
        if k < s.len() {
            assert(s.drop_first()[k - 1] == s[k]);
        }
        lemma_run_len_at(s.drop_first(), k - 1);
    }
}

/// The whitespace-separated tokens of a byte sequence, in order, empty
/// tokens dropped.
pub open spec fn tokens_of(s: Seq<u8>) -> Seq<Seq<u8>>
    decreases s.len(),
    via tokens_of_dec
{
    if s.len() == 0 {
        Seq::empty()
    } else if is_ws(s[0]) {
        tokens_of(s.drop_first())
    } else {
        seq![s.subrange(0, run_len(s) as int)] + tokens_of(
            s.subrange(run_len(s) as int, s.len() as int),
        )
    }
}

#[via_fn]
proof fn tokens_of_dec(s: Seq<u8>) {
    lemma_run_len_le(s);
}

/// Canonical form of one token under the token table: the first matching
/// rule's replacement, else the token itself.
pub open spec fn lookup_token(tokens: Seq<(Seq<u8>, Seq<u8>)>, t: Seq<u8>) -> Seq<u8>
    decreases tokens.len(),
{
    if tokens.len() == 0 {
        t
    } else if tokens[0].0 == t {
        tokens[0].1
    } else {
        lookup_token(tokens.drop_first(), t)
    }
}

/// Normalized token list of a name text.
pub open spec fn norm_name(text: Seq<u8>, tokens: Seq<(Seq<u8>, Seq<u8>)>) -> Seq<Seq<u8>> {
    tokens_of(lower_bytes(text)).map_values(|t: Seq<u8>| lookup_token(tokens, t))
}

/// View of a vector of byte vectors.
pub open spec fn vecs_view(v: Seq<Vec<u8>>) -> Seq<Seq<u8>> {
    Seq::new(v.len(), |i: int| v[i]@)
}

/// Split a byte vector into its whitespace-separated tokens.
#[verifier::loop_isolation(false)]
pub fn tokenize(s: &Vec<u8>) -> (r: Vec<Vec<u8>>)
    ensures
        vecs_view(r@) == tokens_of(s@),
{
    let mut r: Vec<Vec<u8>> = Vec::new();
    let mut pos: usize = 0;
    proof {
        assert(s@.subrange(0, s@.len() as int) =~= s@);
        assert(vecs_view(r@) =~= Seq::<Seq<u8>>::empty());
        assert(Seq::<Seq<u8>>::empty() + tokens_of(s@) =~= tokens_of(s@));
    }
    while pos < s.len()
        invariant
            pos <= s@.len(),
            tokens_of(s@) == vecs_view(r@) + tokens_of(s@.subrange(pos as int, s@.len() as int)),
        decreases s@.len() - pos,
    {
        let b = s[pos];
        if b == 0x20 || b == 0x09 || b == 0x0A || b == 0x0D {
            proof {
                let rest = s@.subrange(pos as int, s@.len() as int);
                assert(is_ws(rest[0]));
                assert(rest.drop_first() =~= s@.subrange(pos + 1, s@.len() as int));
            }
            pos = pos + 1;
        } else {
            let mut e: usize = pos + 1;
            while e < s.len() && !(s[e] == 0x20 || s[e] == 0x09 || s[e] == 0x0A || s[e] == 0x0D)
                invariant
                    pos < e <= s@.len(),
                    forall|i: int| pos <= i < e ==> !is_ws(#[trigger] s@[i]),
                decreases s@.len() - e,
            {
                e = e + 1;
            }
            let tok = slice_to_vec(slice_subrange(s.as_slice(), pos, e));
            proof {
                let rest = s@.subrange(pos as int, s@.len() as int);
                assert(!is_ws(rest[0]));
                assert forall|i: int| 0 <= i < e - pos implies !is_ws(#[trigger] rest[i]) by {
                    assert(rest[i] == s@[pos + i]);
                }
                if e < s@.len() {
                    assert(rest[e - pos] == s@[e as int]);
                }
                lemma_run_len_at(rest, e - pos);
                assert(rest.subrange(0, e - pos) =~= s@.subrange(pos as int, e as int));
                assert(rest.subrange(e - pos, rest.len() as int) =~= s@.subrange(
                    e as int,
                    s@.len() as int,
                ));
                assert(tok@ == s@.subrange(pos as int, e as int));
            }
            let ghost old_r = r@;
            r.push(tok);
            proof {
                assert(vecs_view(r@) =~= vecs_view(old_r).push(s@.subrange(
                    pos as int,
                    e as int,
                )));
                assert(vecs_view(old_r) + (seq![s@.subrange(pos as int, e as int)] + tokens_of(
                    s@.subrange(e as int, s@.len() as int),
                )) =~= vecs_view(r@) + tokens_of(s@.subrange(e as int, s@.len() as int)));
            }
            pos = e;
        }
    }
    proof {
        assert(s@.subrange(s@.len() as int, s@.len() as int) =~= Seq::<u8>::empty());
        assert(tokens_of(Seq::<u8>::empty()) =~= Seq::<Seq<u8>>::empty());
        assert(vecs_view(r@) =~= tokens_of(s@));
    }
    r
}

/// Look a token up in the context's token table.
#[verifier::loop_isolation(false)]
pub fn lookup_token_exec(tokens: &Vec<(String, String)>, t: &Vec<u8>) -> (r: Vec<u8>)
    ensures
        r@ == lookup_token(tokens_view(tokens@), t@),
{
    let ghost tv = tokens_view(tokens@);
    let mut i: usize = 0;
    proof {
        assert(tv.subrange(0, tv.len() as int) =~= tv);
    }
    while i < tokens.len()
        invariant
            i <= tokens@.len(),
            lookup_token(tv, t@) == lookup_token(tv.subrange(i as int, tv.len() as int), t@),
        decreases tokens@.len() - i,
    {
        let key = string_bytes(&tokens[i].0);
        proof {
            let rest = tv.subrange(i as int, tv.len() as int);
            assert(rest[0] == tv[i as int]);
            assert(rest.drop_first() =~= tv.subrange(i + 1, tv.len() as int));
        }
        if bytes_eq(&key, t) {
            return string_bytes(&tokens[i].1);
        }
        i = i + 1;
    }
    proof {
        assert(tv.subrange(tv.len() as int, tv.len() as int) =~= Seq::<(Seq<u8>, Seq<u8>)>::empty());
    }
    slice_to_vec(t.as_slice())
}

/// Normalized token list of a name text, under a context.
#[verifier::loop_isolation(false)]
pub fn norm_name_exec(text: &String, ctx: &Context) -> (r: Vec<Vec<u8>>)
    ensures
        vecs_view(r@) == norm_name(str_bytes(text@), tokens_view(ctx.tokens@)),
{
    let bytes = string_bytes(text);
    let lowered = lower_vec(&bytes);
    let toks = tokenize(&lowered);
    let mut r: Vec<Vec<u8>> = Vec::new();
    let mut i: usize = 0;
    while i < toks.len()
        invariant
            i <= toks@.len(),
            r@.len() == i,
            forall|j: int|
                0 <= j < i ==> #[trigger] r@[j]@ == lookup_token(
                    tokens_view(ctx.tokens@),
                    vecs_view(toks@)[j],
                ),
        decreases toks@.len() - i,
    {
        let canon = lookup_token_exec(&ctx.tokens, &toks[i]);
        r.push(canon);
        i = i + 1;
    }
    proof {
        assert(vecs_view(r@) =~= norm_name(str_bytes(text@), tokens_view(ctx.tokens@)));
    }
    r
}

/// Equality of two token lists.
pub fn toklists_eq(a: &Vec<Vec<u8>>, b: &Vec<Vec<u8>>) -> (r: bool)
    ensures
        r == (vecs_view(a@) == vecs_view(b@)),
{
    if a.len() != b.len() {
        assert(vecs_view(a@).len() != vecs_view(b@).len());
        return false;
    }
    let mut i: usize = 0;
    while i < a.len()
        invariant
            i <= a@.len(),
            a@.len() == b@.len(),
            forall|j: int| 0 <= j < i ==> vecs_view(a@)[j] == vecs_view(b@)[j],
        decreases a@.len() - i,
    {
        if !bytes_eq(&a[i], &b[i]) {
            assert(vecs_view(a@)[i as int] != vecs_view(b@)[i as int]);
            return false;
        }
        i = i + 1;
    }
    assert(vecs_view(a@) =~= vecs_view(b@));
    true
}

/// Normalized form of one name.
pub open spec fn norm_of(n: NameV, tokens: Seq<(Seq<u8>, Seq<u8>)>) -> Seq<Seq<u8>> {
    norm_name(n.text, tokens)
}

/// Some name in `ns` normalizes to `t`.
pub open spec fn has_norm(ns: Seq<NameV>, t: Seq<Seq<u8>>, tokens: Seq<(Seq<u8>, Seq<u8>)>) -> bool {
    exists|i: int| 0 <= i < ns.len() && norm_of(ns[i], tokens) == t
}

/// The two name sets are equivalent: each side's normalized forms all
/// occur on the other side.
pub open spec fn names_equiv(
    a: Seq<NameV>,
    b: Seq<NameV>,
    tokens: Seq<(Seq<u8>, Seq<u8>)>,
) -> bool {
    (forall|i: int| 0 <= i < a.len() ==> has_norm(b, norm_of(#[trigger] a[i], tokens), tokens))
        && (forall|i: int| 0 <= i < b.len() ==> has_norm(a, norm_of(#[trigger] b[i], tokens), tokens))
}

/// The two name sets share at least one normalized form.
pub open spec fn names_overlap(
    a: Seq<NameV>,
    b: Seq<NameV>,
    tokens: Seq<(Seq<u8>, Seq<u8>)>,
) -> bool {
    exists|i: int| 0 <= i < a.len() && has_norm(b, norm_of(a[i], tokens), tokens)
}

/// Does some name of `ns` normalize to `t`?
#[verifier::loop_isolation(false)]
pub fn has_norm_exec(ns: &Vec<Name>, t: &Vec<Vec<u8>>, ctx: &Context) -> (r: bool)
    ensures
        r == has_norm(names_view(ns@), vecs_view(t@), tokens_view(ctx.tokens@)),
{
    let ghost tv = tokens_view(ctx.tokens@);
    let mut i: usize = 0;
    while i < ns.len()
        invariant
            i <= ns@.len(),
            forall|j: int|
                0 <= j < i ==> norm_of(#[trigger] names_view(ns@)[j], tv) != vecs_view(t@),
        decreases ns@.len() - i,
    {
        let norm = norm_name_exec(&ns[i].text, ctx);
        if toklists_eq(&norm, t) {
            assert(norm_of(names_view(ns@)[i as int], tv) == vecs_view(t@));
            return true;
        }
        i = i + 1;
    }
    false
}

/// Are the two name sets equivalent under the context?
#[verifier::loop_isolation(false)]
pub fn names_equiv_exec(a: &Vec<Name>, b: &Vec<Name>, ctx: &Context) -> (r: bool)
    ensures
        r == names_equiv(names_view(a@), names_view(b@), tokens_view(ctx.tokens@)),
{
    let ghost tv = tokens_view(ctx.tokens@);
    let mut i: usize = 0;
    while i < a.len()
        invariant
            i <= a@.len(),
            forall|j: int|
                0 <= j < i ==> has_norm(names_view(b@), norm_of(
                    #[trigger] names_view(a@)[j],
                    tv,
                ), tv),
        decreases a@.len() - i,
    {
        let norm = norm_name_exec(&a[i].text, ctx);
        if !has_norm_exec(b, &norm, ctx) {
            assert(!has_norm(names_view(b@), norm_of(names_view(a@)[i as int], tv), tv));
            return false;
        }
        i = i + 1;
    }
    let mut k: usize = 0;
    while k < b.len()
        invariant
            k <= b@.len(),
            forall|j: int|
                0 <= j < k ==> has_norm(names_view(a@), norm_of(
                    #[trigger] names_view(b@)[j],
                    tv,
                ), tv),
        decreases b@.len() - k,
    {
        let norm = norm_name_exec(&b[k].text, ctx);
        if !has_norm_exec(a, &norm, ctx) {
            assert(!has_norm(names_view(a@), norm_of(names_view(b@)[k as int], tv), tv));
            return false;
        }
        k = k + 1;
    }
    true
}

/// Do the two name sets share a normalized form?
#[verifier::loop_isolation(false)]
pub fn names_overlap_exec(a: &Vec<Name>, b: &Vec<Name>, ctx: &Context) -> (r: bool)
    ensures
        r == names_overlap(names_view(a@), names_view(b@), tokens_view(ctx.tokens@)),
{
    let ghost tv = tokens_view(ctx.tokens@);
    let mut i: usize = 0;
    while i < a.len()
        invariant
            i <= a@.len(),
            forall|j: int|
                0 <= j < i ==> !has_norm(names_view(b@), norm_of(
                    #[trigger] names_view(a@)[j],
                    tv,
                ), tv),
        decreases a@.len() - i,
    {
        let norm = norm_name_exec(&a[i].text, ctx);
        if has_norm_exec(b, &norm, ctx) {
            assert(has_norm(names_view(b@), norm_of(names_view(a@)[i as int], tv), tv));
            return true;
        }
        i = i + 1;
    }
    false
}

} // verus!
