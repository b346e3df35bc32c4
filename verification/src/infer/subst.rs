//! The meaning of substitutions: resolution, occurrence, application and
//! the acyclicity that makes them terminate.
use vstd::prelude::*;
use crate::infer::types::{Type, TypeM, TypeVarId, has_vars_m, has_vars_seq};

verus! {

/// Follow the chain of bound variables at the top of `t`, taking at most
/// `fuel` steps.
pub open spec fn resolve_m(t: TypeM, s: Map<TypeVarId, Type>, fuel: nat) -> TypeM
    decreases fuel,
{
    match t {
        TypeM::Var(id) => if s.contains_key(id) && fuel > 0 {
            resolve_m(s[id]@, s, (fuel - 1) as nat)
        } else {
            t
        },
        _ => t,
    }
}

/// Whether variable `x` occurs in `t`, looking through bound variables
/// (at most `fuel` of them along any path).
pub open spec fn occurs_m(x: TypeVarId, t: TypeM, s: Map<TypeVarId, Type>, fuel: nat) -> bool
    decreases fuel, t,
{
    match t {
        TypeM::Var(id) => id == x || (s.contains_key(id) && fuel > 0 && occurs_m(
            x,
            s[id]@,
            s,
            (fuel - 1) as nat,
        )),
        TypeM::List(i) => occurs_m(x, *i, s, fuel),
        TypeM::Optional(i) => occurs_m(x, *i, s, fuel),
        TypeM::Dict(k, v) => occurs_m(x, *k, s, fuel) || occurs_m(x, *v, s, fuel),
        TypeM::Result(k, v) => occurs_m(x, *k, s, fuel) || occurs_m(x, *v, s, fuel),
        TypeM::Tuple(ts) => occurs_seq(x, ts, s, fuel),
        TypeM::Function(ps, r, _) => occurs_seq(x, ps, s, fuel) || occurs_m(x, *r, s, fuel),
        _ => false,
    }
}

/// Whether `x` occurs in some type of `ts`.
pub open spec fn occurs_seq(x: TypeVarId, ts: Seq<TypeM>, s: Map<TypeVarId, Type>, fuel: nat) -> bool
    decreases fuel, ts,
{
    if ts.len() == 0 {
        false
    } else {
        occurs_seq(x, ts.drop_last(), s, fuel) || occurs_m(x, ts.last(), s, fuel)
    }
}

/// Whether `x` is written in `t` itself.
pub open spec fn free_in(x: TypeVarId, t: TypeM) -> bool {
    occurs_m(x, t, Map::empty(), 0)
}

/// Replace bound variables in `t` by what they are bound to.
pub open spec fn apply_m(t: TypeM, s: Map<TypeVarId, Type>, fuel: nat) -> TypeM
    decreases fuel, t,
{
    match t {
        TypeM::Var(id) => if s.contains_key(id) && fuel > 0 {
            apply_m(s[id]@, s, (fuel - 1) as nat)
        } else {
            t
        },
        TypeM::List(i) => TypeM::List(Box::new(apply_m(*i, s, fuel))),
        TypeM::Optional(i) => TypeM::Optional(Box::new(apply_m(*i, s, fuel))),
        TypeM::Dict(k, v) => TypeM::Dict(Box::new(apply_m(*k, s, fuel)), Box::new(apply_m(*v, s, fuel))),
        TypeM::Result(k, v) => TypeM::Result(
            Box::new(apply_m(*k, s, fuel)),
            Box::new(apply_m(*v, s, fuel)),
        ),
        TypeM::Tuple(ts) => TypeM::Tuple(apply_seq(ts, s, fuel)),
        TypeM::Function(ps, r, es) => TypeM::Function(
            apply_seq(ps, s, fuel),
            Box::new(apply_m(*r, s, fuel)),
            es,
        ),
        _ => t,
    }
}

/// `apply_m` on each type of `ts`.
pub open spec fn apply_seq(ts: Seq<TypeM>, s: Map<TypeVarId, Type>, fuel: nat) -> Seq<TypeM>
    decreases fuel, ts,
{
    if ts.len() == 0 {
        Seq::empty()
    } else {
        apply_seq(ts.drop_last(), s, fuel).push(apply_m(ts.last(), s, fuel))
    }
}

/// Replace every type variable left in `t` by the error type.
pub open spec fn strip_vars(t: TypeM) -> TypeM
    decreases t,
{
    match t {
        TypeM::Var(_) => TypeM::Error,
        TypeM::List(i) => TypeM::List(Box::new(strip_vars(*i))),
        TypeM::Optional(i) => TypeM::Optional(Box::new(strip_vars(*i))),
        TypeM::Dict(k, v) => TypeM::Dict(Box::new(strip_vars(*k)), Box::new(strip_vars(*v))),
        TypeM::Result(k, v) => TypeM::Result(Box::new(strip_vars(*k)), Box::new(strip_vars(*v))),
        TypeM::Tuple(ts) => TypeM::Tuple(strip_seq(ts)),
        TypeM::Function(ps, r, es) => TypeM::Function(strip_seq(ps), Box::new(strip_vars(*r)), es),
        _ => t,
    }
}

/// `strip_vars` on each type of `ts`.
pub open spec fn strip_seq(ts: Seq<TypeM>) -> Seq<TypeM>
    decreases ts,
{
    if ts.len() == 0 {
        Seq::empty()
    } else {
        strip_seq(ts.drop_last()).push(strip_vars(ts.last()))
    }
}

/// Number of nodes of `t`, not counting inside struct and enum definitions.
pub open spec fn size_m(t: TypeM) -> nat
    decreases t,
{
    match t {
        TypeM::List(i) => 1 + size_m(*i),
        TypeM::Optional(i) => 1 + size_m(*i),
        TypeM::Dict(k, v) => 1 + size_m(*k) + size_m(*v),
        TypeM::Result(k, v) => 1 + size_m(*k) + size_m(*v),
        TypeM::Tuple(ts) => 1 + size_seq(ts),
        TypeM::Function(ps, r, _) => 1 + size_seq(ps) + size_m(*r),
        _ => 1,
    }
}

/// Sum of the sizes of the types of `ts`.
pub open spec fn size_seq(ts: Seq<TypeM>) -> nat
    decreases ts,
{
    if ts.len() == 0 {
        0
    } else {
        size_seq(ts.drop_last()) + size_m(ts.last())
    }
}

/// `rank` orders the variables so that every variable written in a bound
/// type ranks below the variable bound to it, and `fuel` exceeds the rank of
/// every bound variable.
pub open spec fn ranked(s: Map<TypeVarId, Type>, rank: spec_fn(TypeVarId) -> nat, fuel: nat) -> bool {
    &&& forall|k: TypeVarId, v: TypeVarId|
        s.contains_key(k) && #[trigger] free_in(v, s[k]@) ==> rank(v) < rank(k)
    &&& forall|k: TypeVarId| #[trigger] s.contains_key(k) ==> rank(k) < fuel
}

/// No variable is bound, directly or through other variables, to a type
/// that mentions it.
pub open spec fn acyclic(s: Map<TypeVarId, Type>) -> bool {
    exists|p: (spec_fn(TypeVarId) -> nat, nat)| ranked(s, p.0, p.1)
}

/// A ranking of an acyclic substitution.
pub open spec fn crank(s: Map<TypeVarId, Type>) -> spec_fn(TypeVarId) -> nat {
    (choose|p: (spec_fn(TypeVarId) -> nat, nat)| ranked(s, p.0, p.1)).0
}

/// Enough fuel to follow every chain of an acyclic substitution.
pub open spec fn cfuel(s: Map<TypeVarId, Type>) -> nat {
    (choose|p: (spec_fn(TypeVarId) -> nat, nat)| ranked(s, p.0, p.1)).1
}

/// The result of following bound variables at the top of `t`.
pub open spec fn resolve_c(t: TypeM, s: Map<TypeVarId, Type>) -> TypeM {
    resolve_m(t, s, cfuel(s))
}

/// Whether `x` occurs in `t` once bound variables are looked through.
pub open spec fn occurs_c(x: TypeVarId, t: TypeM, s: Map<TypeVarId, Type>) -> bool {
    occurs_m(x, t, s, cfuel(s))
}

/// `t` with every bound variable replaced, recursively, by its binding.
pub open spec fn apply_c(t: TypeM, s: Map<TypeVarId, Type>) -> TypeM {
    apply_m(t, s, cfuel(s))
}

/// Size of `t` once the substitution is applied.
pub open spec fn msize(t: TypeM, s: Map<TypeVarId, Type>) -> nat {
    size_m(apply_c(t, s))
}

/// Rank of the top of `t`, if it is a bound variable.
pub open spec fn top_rank(t: TypeM, s: Map<TypeVarId, Type>) -> nat {
    match t {
        TypeM::Var(id) => if s.contains_key(id) {
            crank(s)(id) + 1
        } else {
            0
        },
        _ => 0,
    }
}

/// `s2` keeps every binding of `s1`.
pub open spec fn extends(s2: Map<TypeVarId, Type>, s1: Map<TypeVarId, Type>) -> bool {
    forall|k: TypeVarId| #[trigger] s1.contains_key(k) ==> s2.contains_key(k) && s2[k] == s1[k]
}

/// Every bound variable written in `t` ranks below `f`.
pub open spec fn covered(t: TypeM, s: Map<TypeVarId, Type>, rank: spec_fn(TypeVarId) -> nat, f: nat) -> bool {
    forall|v: TypeVarId| #[trigger] free_in(v, t) && s.contains_key(v) ==> rank(v) < f
}

/// Every bound variable written in a type of `ts` ranks below `f`.
pub open spec fn covered_seq(
    ts: Seq<TypeM>,
    s: Map<TypeVarId, Type>,
    rank: spec_fn(TypeVarId) -> nat,
    f: nat,
) -> bool {
    forall|v: TypeVarId| #[trigger] occurs_seq(v, ts, Map::empty(), 0) && s.contains_key(v) ==> rank(v) < f
}

// ── Fuel does not matter once it suffices ───────────────────

pub proof fn lemma_occurs_fuel(
    x: TypeVarId,
    t: TypeM,
    s: Map<TypeVarId, Type>,
    rank: spec_fn(TypeVarId) -> nat,
    big: nat,
    f1: nat,
    f2: nat,
)
    requires
        ranked(s, rank, big),
        covered(t, s, rank, f1),
        covered(t, s, rank, f2),
    ensures
        occurs_m(x, t, s, f1) == occurs_m(x, t, s, f2),
    decreases f1, t,
{
    match t {
        TypeM::Var(id) => {
            assert(free_in(id, t));
            if s.contains_key(id) {
                let b = s[id]@;
                assert forall|v: TypeVarId| #[trigger] free_in(v, b) && s.contains_key(v) implies rank(
                    v,
                ) < (f1 - 1) as nat && rank(v) < (f2 - 1) as nat by {
                    assert(free_in(v, s[id]@));
                }
                lemma_occurs_fuel(x, b, s, rank, big, (f1 - 1) as nat, (f2 - 1) as nat);
            }
        },
        TypeM::List(i) => {
            assert forall|v: TypeVarId| #[trigger] free_in(v, *i) implies free_in(v, t) by {}
            lemma_occurs_fuel(x, *i, s, rank, big, f1, f2);
        },
        TypeM::Optional(i) => {
            assert forall|v: TypeVarId| #[trigger] free_in(v, *i) implies free_in(v, t) by {}
            lemma_occurs_fuel(x, *i, s, rank, big, f1, f2);
        },
        TypeM::Dict(k, w) => {
            assert forall|v: TypeVarId| #[trigger] free_in(v, *k) implies free_in(v, t) by {}
            assert forall|v: TypeVarId| #[trigger] free_in(v, *w) implies free_in(v, t) by {}
            lemma_occurs_fuel(x, *k, s, rank, big, f1, f2);
            lemma_occurs_fuel(x, *w, s, rank, big, f1, f2);
        },
        TypeM::Result(k, w) => {
            assert forall|v: TypeVarId| #[trigger] free_in(v, *k) implies free_in(v, t) by {}
            assert forall|v: TypeVarId| #[trigger] free_in(v, *w) implies free_in(v, t) by {}
            lemma_occurs_fuel(x, *k, s, rank, big, f1, f2);
            lemma_occurs_fuel(x, *w, s, rank, big, f1, f2);
        },
        TypeM::Tuple(ts) => {
            assert forall|v: TypeVarId| #[trigger] occurs_seq(v, ts, Map::empty(), 0) implies free_in(
                v,
                t,
            ) by {}
            lemma_occurs_seq_fuel(x, ts, s, rank, big, f1, f2);
        },
        TypeM::Function(ps, r, _) => {
            assert forall|v: TypeVarId| #[trigger] occurs_seq(v, ps, Map::empty(), 0) implies free_in(
                v,
                t,
            ) by {}
            assert forall|v: TypeVarId| #[trigger] free_in(v, *r) implies free_in(v, t) by {}
            lemma_occurs_seq_fuel(x, ps, s, rank, big, f1, f2);
            lemma_occurs_fuel(x, *r, s, rank, big, f1, f2);
        },
        _ => {},
    }
}

pub proof fn lemma_occurs_seq_fuel(
    x: TypeVarId,
    ts: Seq<TypeM>,
    s: Map<TypeVarId, Type>,
    rank: spec_fn(TypeVarId) -> nat,
    big: nat,
    f1: nat,
    f2: nat,
)
    requires
        ranked(s, rank, big),
        covered_seq(ts, s, rank, f1),
        covered_seq(ts, s, rank, f2),
    ensures
        occurs_seq(x, ts, s, f1) == occurs_seq(x, ts, s, f2),
    decreases f1, ts,
{
    if ts.len() > 0 {
        let d = ts.drop_last();
        let l = ts.last();
        assert forall|v: TypeVarId| #[trigger] occurs_seq(v, d, Map::empty(), 0) implies occurs_seq(
            v,
            ts,
            Map::empty(),
            0,
        ) by {}
        assert forall|v: TypeVarId| #[trigger] free_in(v, l) implies occurs_seq(v, ts, Map::empty(), 0) by {}
        lemma_occurs_seq_fuel(x, d, s, rank, big, f1, f2);
        lemma_occurs_fuel(x, l, s, rank, big, f1, f2);
    }
}

pub proof fn lemma_resolve_fuel(
    t: TypeM,
    s: Map<TypeVarId, Type>,
    rank: spec_fn(TypeVarId) -> nat,
    big: nat,
    f1: nat,
    f2: nat,
)
    requires
        ranked(s, rank, big),
        covered(t, s, rank, f1),
        covered(t, s, rank, f2),
    ensures
        resolve_m(t, s, f1) == resolve_m(t, s, f2),
    decreases f1,
{
    if let TypeM::Var(id) = t {
        assert(free_in(id, t));
        if s.contains_key(id) {
            let b = s[id]@;
            assert forall|v: TypeVarId| #[trigger] free_in(v, b) && s.contains_key(v) implies rank(v)
                < (f1 - 1) as nat && rank(v) < (f2 - 1) as nat by {
                assert(free_in(v, s[id]@));
            }
            lemma_resolve_fuel(b, s, rank, big, (f1 - 1) as nat, (f2 - 1) as nat);
        }
    }
}

pub proof fn lemma_apply_fuel(
    t: TypeM,
    s: Map<TypeVarId, Type>,
    rank: spec_fn(TypeVarId) -> nat,
    big: nat,
    f1: nat,
    f2: nat,
)
    requires
        ranked(s, rank, big),
        covered(t, s, rank, f1),
        covered(t, s, rank, f2),
    ensures
        apply_m(t, s, f1) == apply_m(t, s, f2),
    decreases f1, t,
{
    match t {
        TypeM::Var(id) => {
            assert(free_in(id, t));
            if s.contains_key(id) {
                let b = s[id]@;
                assert forall|v: TypeVarId| #[trigger] free_in(v, b) && s.contains_key(v) implies rank(
                    v,
                ) < (f1 - 1) as nat && rank(v) < (f2 - 1) as nat by {
                    assert(free_in(v, s[id]@));
                }
                lemma_apply_fuel(b, s, rank, big, (f1 - 1) as nat, (f2 - 1) as nat);
            }
        },
        TypeM::List(i) => {
            assert forall|v: TypeVarId| #[trigger] free_in(v, *i) implies free_in(v, t) by {}
            lemma_apply_fuel(*i, s, rank, big, f1, f2);
        },
        TypeM::Optional(i) => {
            assert forall|v: TypeVarId| #[trigger] free_in(v, *i) implies free_in(v, t) by {}
            lemma_apply_fuel(*i, s, rank, big, f1, f2);
        },
        TypeM::Dict(k, w) => {
            assert forall|v: TypeVarId| #[trigger] free_in(v, *k) implies free_in(v, t) by {}
            assert forall|v: TypeVarId| #[trigger] free_in(v, *w) implies free_in(v, t) by {}
            lemma_apply_fuel(*k, s, rank, big, f1, f2);
            lemma_apply_fuel(*w, s, rank, big, f1, f2);
        },
        TypeM::Result(k, w) => {
            assert forall|v: TypeVarId| #[trigger] free_in(v, *k) implies free_in(v, t) by {}
            assert forall|v: TypeVarId| #[trigger] free_in(v, *w) implies free_in(v, t) by {}
            lemma_apply_fuel(*k, s, rank, big, f1, f2);
            lemma_apply_fuel(*w, s, rank, big, f1, f2);
        },
        TypeM::Tuple(ts) => {
            assert forall|v: TypeVarId| #[trigger] occurs_seq(v, ts, Map::empty(), 0) implies free_in(
                v,
                t,
            ) by {}
            lemma_apply_seq_fuel(ts, s, rank, big, f1, f2);
        },
        TypeM::Function(ps, r, _) => {
            assert forall|v: TypeVarId| #[trigger] occurs_seq(v, ps, Map::empty(), 0) implies free_in(
                v,
                t,
            ) by {}
            assert forall|v: TypeVarId| #[trigger] free_in(v, *r) implies free_in(v, t) by {}
            lemma_apply_seq_fuel(ps, s, rank, big, f1, f2);
            lemma_apply_fuel(*r, s, rank, big, f1, f2);
        },
        _ => {},
    }
}

pub proof fn lemma_apply_seq_fuel(
    ts: Seq<TypeM>,
    s: Map<TypeVarId, Type>,
    rank: spec_fn(TypeVarId) -> nat,
    big: nat,
    f1: nat,
    f2: nat,
)
    requires
        ranked(s, rank, big),
        covered_seq(ts, s, rank, f1),
        covered_seq(ts, s, rank, f2),
    ensures
        apply_seq(ts, s, f1) == apply_seq(ts, s, f2),
    decreases f1, ts,
{
    if ts.len() > 0 {
        let d = ts.drop_last();
        let l = ts.last();
        assert forall|v: TypeVarId| #[trigger] occurs_seq(v, d, Map::empty(), 0) implies occurs_seq(
            v,
            ts,
            Map::empty(),
            0,
        ) by {}
        assert forall|v: TypeVarId| #[trigger] free_in(v, l) implies occurs_seq(v, ts, Map::empty(), 0) by {}
        lemma_apply_seq_fuel(d, s, rank, big, f1, f2);
        lemma_apply_fuel(l, s, rank, big, f1, f2);
    }
}

// ── Canonical forms ─────────────────────────────────────────

/// The chosen ranking of an acyclic substitution is a ranking.
pub proof fn lemma_canonical(s: Map<TypeVarId, Type>)
    requires
        acyclic(s),
    ensures
        ranked(s, crank(s), cfuel(s)),
{
    let p = choose|p: (spec_fn(TypeVarId) -> nat, nat)| ranked(s, p.0, p.1);
    assert(ranked(s, p.0, p.1));
}

/// Following a bound variable continues with its binding.
pub proof fn lemma_var_step(s: Map<TypeVarId, Type>, id: TypeVarId, x: TypeVarId)
    requires
        acyclic(s),
        s.contains_key(id),
    ensures
        resolve_c(TypeM::Var(id), s) == resolve_c(s[id]@, s),
        apply_c(TypeM::Var(id), s) == apply_c(s[id]@, s),
        occurs_c(x, TypeM::Var(id), s) == (id == x || occurs_c(x, s[id]@, s)),
        crank(s)(id) < cfuel(s),
        forall|v: TypeVarId| #[trigger] free_in(v, s[id]@) ==> crank(s)(v) < crank(s)(id),
{
    lemma_canonical(s);
    let r = crank(s);
    let f = cfuel(s);
    let b = s[id]@;
    assert forall|v: TypeVarId| #[trigger] free_in(v, b) implies r(v) < r(id) by {
        assert(free_in(v, s[id]@));
    }
    assert(covered(b, s, r, (f - 1) as nat));
    assert(covered(b, s, r, f));
    lemma_resolve_fuel(b, s, r, f, (f - 1) as nat, f);
    lemma_apply_fuel(b, s, r, f, (f - 1) as nat, f);
    lemma_occurs_fuel(x, b, s, r, f, (f - 1) as nat, f);
}

// ── Sequences ───────────────────────────────────────────────

pub proof fn lemma_apply_seq_index(ts: Seq<TypeM>, s: Map<TypeVarId, Type>, f: nat)
    ensures
        apply_seq(ts, s, f).len() == ts.len(),
        forall|i: int| 0 <= i < ts.len() ==> #[trigger] apply_seq(ts, s, f)[i] == apply_m(ts[i], s, f),
    decreases ts.len(),
{
    if ts.len() > 0 {
        lemma_apply_seq_index(ts.drop_last(), s, f);
        assert forall|i: int| 0 <= i < ts.len() implies #[trigger] apply_seq(ts, s, f)[i] == apply_m(
            ts[i],
            s,
            f,
        ) by {
            if i < ts.len() - 1 {
                assert(ts.drop_last()[i] == ts[i]);
            }
        }
    }
}

pub proof fn lemma_strip_seq_index(ts: Seq<TypeM>)
    ensures
        strip_seq(ts).len() == ts.len(),
        forall|i: int| 0 <= i < ts.len() ==> #[trigger] strip_seq(ts)[i] == strip_vars(ts[i]),
    decreases ts.len(),
{
    if ts.len() > 0 {
        lemma_strip_seq_index(ts.drop_last());
        assert forall|i: int| 0 <= i < ts.len() implies #[trigger] strip_seq(ts)[i] == strip_vars(
            ts[i],
        ) by {
            if i < ts.len() - 1 {
                assert(ts.drop_last()[i] == ts[i]);
            }
        }
    }
}

pub proof fn lemma_size_seq_bound(xs: Seq<TypeM>)
    ensures
        forall|i: int| 0 <= i < xs.len() ==> size_m(#[trigger] xs[i]) <= size_seq(xs),
    decreases xs.len(),
{
    if xs.len() > 0 {
        lemma_size_seq_bound(xs.drop_last());
        assert forall|i: int| 0 <= i < xs.len() implies size_m(#[trigger] xs[i]) <= size_seq(xs) by {
            if i < xs.len() - 1 {
                assert(xs.drop_last()[i] == xs[i]);
            }
        }
    }
}

/// An element of a tuple or parameter list is smaller than the whole.
pub proof fn lemma_elem_smaller(ts: Seq<TypeM>, s: Map<TypeVarId, Type>)
    ensures
        forall|i: int|
            0 <= i < ts.len() ==> #[trigger] msize(ts[i], s) <= size_seq(apply_seq(ts, s, cfuel(s))),
{
    lemma_apply_seq_index(ts, s, cfuel(s));
    lemma_size_seq_bound(apply_seq(ts, s, cfuel(s)));
    assert forall|i: int| 0 <= i < ts.len() implies #[trigger] msize(ts[i], s) <= size_seq(
        apply_seq(ts, s, cfuel(s)),
    ) by {
        assert(apply_seq(ts, s, cfuel(s))[i] == apply_m(ts[i], s, cfuel(s)));
    }
}

/// `occurs_seq` over a growing prefix.
pub proof fn lemma_occurs_seq_take(x: TypeVarId, ts: Seq<TypeM>, s: Map<TypeVarId, Type>, f: nat, i: int)
    requires
        0 <= i < ts.len(),
    ensures
        occurs_seq(x, ts.take(i + 1), s, f) == (occurs_seq(x, ts.take(i), s, f) || occurs_m(
            x,
            ts[i],
            s,
            f,
        )),
{
    assert(ts.take(i + 1).drop_last() =~= ts.take(i));
}

/// `occurs_seq` holds exactly when some element has the variable.
pub proof fn lemma_occurs_seq_exists(x: TypeVarId, ts: Seq<TypeM>, s: Map<TypeVarId, Type>, f: nat)
    ensures
        occurs_seq(x, ts, s, f) <==> exists|i: int| 0 <= i < ts.len() && #[trigger] occurs_m(x, ts[i], s, f),
    decreases ts.len(),
{
    if ts.len() > 0 {
        lemma_occurs_seq_exists(x, ts.drop_last(), s, f);
        if occurs_m(x, ts.last(), s, f) {
            assert(occurs_m(x, ts[ts.len() - 1], s, f));
        }
        if exists|i: int| 0 <= i < ts.len() && #[trigger] occurs_m(x, ts[i], s, f) {
            let i = choose|i: int| 0 <= i < ts.len() && #[trigger] occurs_m(x, ts[i], s, f);
            if i < ts.len() - 1 {
                assert(ts.drop_last()[i] == ts[i]);
            }
        }
    }
}

// ── Binding a variable keeps the substitution acyclic ────────

/// One more than the largest rank of a variable written in `t`.
pub open spec fn bound_of(t: TypeM, rank: spec_fn(TypeVarId) -> nat) -> nat
    decreases t,
{
    match t {
        TypeM::Var(id) => rank(id) + 1,
        TypeM::List(i) => bound_of(*i, rank),
        TypeM::Optional(i) => bound_of(*i, rank),
        TypeM::Dict(k, v) => bound_of(*k, rank) + bound_of(*v, rank),
        TypeM::Result(k, v) => bound_of(*k, rank) + bound_of(*v, rank),
        TypeM::Tuple(ts) => bound_of_seq(ts, rank),
        TypeM::Function(ps, r, _) => bound_of_seq(ps, rank) + bound_of(*r, rank),
        _ => 0,
    }
}

/// Bound over the types of `ts`.
pub open spec fn bound_of_seq(ts: Seq<TypeM>, rank: spec_fn(TypeVarId) -> nat) -> nat
    decreases ts,
{
    if ts.len() == 0 {
        0
    } else {
        bound_of_seq(ts.drop_last(), rank) + bound_of(ts.last(), rank)
    }
}

pub proof fn lemma_bound_of(t: TypeM, rank: spec_fn(TypeVarId) -> nat, v: TypeVarId)
    requires
        free_in(v, t),
    ensures
        rank(v) < bound_of(t, rank),
    decreases t,
{
    match t {
        TypeM::List(i) => lemma_bound_of(*i, rank, v),
        TypeM::Optional(i) => lemma_bound_of(*i, rank, v),
        TypeM::Dict(k, w) => {
            if free_in(v, *k) {
                lemma_bound_of(*k, rank, v);
            } else {
                lemma_bound_of(*w, rank, v);
            }
        },
        TypeM::Result(k, w) => {
            if free_in(v, *k) {
                lemma_bound_of(*k, rank, v);
            } else {
                lemma_bound_of(*w, rank, v);
            }
        },
        TypeM::Tuple(ts) => lemma_bound_of_seq(ts, rank, v),
        TypeM::Function(ps, r, _) => {
            if occurs_seq(v, ps, Map::empty(), 0) {
                lemma_bound_of_seq(ps, rank, v);
            } else {
                lemma_bound_of(*r, rank, v);
            }
        },
        _ => {},
    }
}

pub proof fn lemma_bound_of_seq(ts: Seq<TypeM>, rank: spec_fn(TypeVarId) -> nat, v: TypeVarId)
    requires
        occurs_seq(v, ts, Map::empty(), 0),
    ensures
        rank(v) < bound_of_seq(ts, rank),
    decreases ts,
{
    if ts.len() > 0 {
        if occurs_seq(v, ts.drop_last(), Map::empty(), 0) {
            lemma_bound_of_seq(ts.drop_last(), rank, v);
        } else {
            lemma_bound_of(ts.last(), rank, v);
        }
    }
}

/// If `x` occurs through variable `v`, and `v` is written in `t`, then `x`
/// occurs in `t`.
pub proof fn lemma_occurs_through(x: TypeVarId, v: TypeVarId, t: TypeM, s: Map<TypeVarId, Type>, f: nat)
    requires
        free_in(v, t),
        occurs_m(x, TypeM::Var(v), s, f),
    ensures
        occurs_m(x, t, s, f),
    decreases t,
{
    match t {
        TypeM::List(i) => lemma_occurs_through(x, v, *i, s, f),
        TypeM::Optional(i) => lemma_occurs_through(x, v, *i, s, f),
        TypeM::Dict(k, w) => {
            if free_in(v, *k) {
                lemma_occurs_through(x, v, *k, s, f);
            } else {
                lemma_occurs_through(x, v, *w, s, f);
            }
        },
        TypeM::Result(k, w) => {
            if free_in(v, *k) {
                lemma_occurs_through(x, v, *k, s, f);
            } else {
                lemma_occurs_through(x, v, *w, s, f);
            }
        },
        TypeM::Tuple(ts) => lemma_occurs_through_seq(x, v, ts, s, f),
        TypeM::Function(ps, r, _) => {
            if occurs_seq(v, ps, Map::empty(), 0) {
                lemma_occurs_through_seq(x, v, ps, s, f);
            } else {
                lemma_occurs_through(x, v, *r, s, f);
            }
        },
        _ => {},
    }
}

pub proof fn lemma_occurs_through_seq(
    x: TypeVarId,
    v: TypeVarId,
    ts: Seq<TypeM>,
    s: Map<TypeVarId, Type>,
    f: nat,
)
    requires
        occurs_seq(v, ts, Map::empty(), 0),
        occurs_m(x, TypeM::Var(v), s, f),
    ensures
        occurs_seq(x, ts, s, f),
    decreases ts,
{
    if ts.len() > 0 {
        if occurs_seq(v, ts.drop_last(), Map::empty(), 0) {
            lemma_occurs_through_seq(x, v, ts.drop_last(), s, f);
        } else {
            lemma_occurs_through(x, v, ts.last(), s, f);
        }
    }
}

/// Binding an unbound variable to a type in which it does not occur keeps
/// the substitution acyclic.
pub proof fn lemma_bind_acyclic(s: Map<TypeVarId, Type>, x: TypeVarId, t: Type)
    requires
        acyclic(s),
        !s.contains_key(x),
        !occurs_c(x, t@, s),
    ensures
        acyclic(s.insert(x, t)),
{
    lemma_canonical(s);
    let rank = crank(s);
    let f = cfuel(s);
    let c = bound_of(t@, rank);
    let rank2 = |y: TypeVarId| if occurs_c(x, TypeM::Var(y), s) { rank(y) + c } else { rank(y) };
    let f2 = f + c + rank(x) + 1;
    let s2 = s.insert(x, t);
    assert(occurs_c(x, TypeM::Var(x), s));
    assert forall|k: TypeVarId, v: TypeVarId|
        s2.contains_key(k) && #[trigger] free_in(v, s2[k]@) implies rank2(v) < rank2(k) by {
        if k == x {
            lemma_bound_of(t@, rank, v);
            if occurs_c(x, TypeM::Var(v), s) {
                lemma_occurs_through(x, v, t@, s, f);
            }
        } else {
            assert(s2[k] == s[k]);
            assert(free_in(v, s[k]@));
            assert(rank(v) < rank(k));
            if occurs_c(x, TypeM::Var(v), s) {
                lemma_occurs_through(x, v, s[k]@, s, f);
                lemma_var_step(s, k, x);
            }
        }
    }
    assert forall|k: TypeVarId| #[trigger] s2.contains_key(k) implies rank2(k) < f2 by {
        if k != x {
            assert(s.contains_key(k));
        }
    }
    assert(ranked(s2, rank2, f2));
    let p: (spec_fn(TypeVarId) -> nat, nat) = (rank2, f2);
    assert(ranked(s2, p.0, p.1));
}

// ── What unification establishes ────────────────────────────

/// Types that unification accepts as matching: equal types; the error
/// and never types against anything; the same constructor with matching
/// parts; structs, enums and named types of the same name; and `int`
/// against `float` (numeric widening).
pub open spec fn compat(a: TypeM, b: TypeM) -> bool
    decreases a,
{
    if a == b {
        true
    } else {
        match a {
            TypeM::Error => true,
            TypeM::Never => true,
            _ => match b {
                TypeM::Error => true,
                TypeM::Never => true,
                _ => match a {
                    TypeM::List(x) => match b {
                        TypeM::List(y) => compat(*x, *y),
                        _ => false,
                    },
                    TypeM::Optional(x) => match b {
                        TypeM::Optional(y) => compat(*x, *y),
                        _ => false,
                    },
                    TypeM::Dict(k1, v1) => match b {
                        TypeM::Dict(k2, v2) => compat(*k1, *k2) && compat(*v1, *v2),
                        _ => false,
                    },
                    TypeM::Result(k1, v1) => match b {
                        TypeM::Result(k2, v2) => compat(*k1, *k2) && compat(*v1, *v2),
                        _ => false,
                    },
                    TypeM::Tuple(xs) => match b {
                        TypeM::Tuple(ys) => compat_seq(xs, ys),
                        _ => false,
                    },
                    TypeM::Function(p1, r1, _) => match b {
                        TypeM::Function(p2, r2, _) => compat_seq(p1, p2) && compat(*r1, *r2),
                        _ => false,
                    },
                    TypeM::Struct(x) => match b {
                        TypeM::Struct(y) => x.name == y.name,
                        _ => false,
                    },
                    TypeM::Enum(x) => match b {
                        TypeM::Enum(y) => x.name == y.name,
                        _ => false,
                    },
                    TypeM::Named(x) => match b {
                        TypeM::Named(y) => x == y,
                        _ => false,
                    },
                    TypeM::Int => b == TypeM::Float,
                    TypeM::Float => b == TypeM::Int,
                    _ => false,
                },
            },
        }
    }
}

/// Sequences of the same length whose elements match pairwise.
pub open spec fn compat_seq(xs: Seq<TypeM>, ys: Seq<TypeM>) -> bool
    decreases xs,
{
    xs.len() == ys.len() && (xs.len() == 0 || (compat_seq(xs.drop_last(), ys.drop_last()) && compat(
        xs.last(),
        ys.last(),
    )))
}

pub proof fn lemma_compat_seq_index(xs: Seq<TypeM>, ys: Seq<TypeM>)
    ensures
        compat_seq(xs, ys) <==> (xs.len() == ys.len() && forall|i: int|
            0 <= i < xs.len() ==> #[trigger] compat(xs[i], ys[i])),
    decreases xs.len(),
{
    if xs.len() > 0 && xs.len() == ys.len() {
        lemma_compat_seq_index(xs.drop_last(), ys.drop_last());
        if compat_seq(xs, ys) {
            assert forall|i: int| 0 <= i < xs.len() implies #[trigger] compat(xs[i], ys[i]) by {
                if i < xs.len() - 1 {
                    assert(xs.drop_last()[i] == xs[i] && ys.drop_last()[i] == ys[i]);
                }
            }
        }
        if forall|i: int| 0 <= i < xs.len() ==> #[trigger] compat(xs[i], ys[i]) {
            assert forall|i: int| 0 <= i < xs.drop_last().len() implies #[trigger] compat(
                xs.drop_last()[i],
                ys.drop_last()[i],
            ) by {
                assert(xs.drop_last()[i] == xs[i] && ys.drop_last()[i] == ys[i]);
            }
            assert(compat(xs[xs.len() - 1], ys[ys.len() - 1]));
        }
    }
}

/// Every type matches itself.
pub proof fn lemma_compat_refl(a: TypeM)
    ensures
        compat(a, a),
{
}

/// Under an extension `s2` of `s1`, applying `s2` to `t` is applying it to
/// what `t` resolves to in `s1`.
pub proof fn lemma_apply_resolve(t: TypeM, s1: Map<TypeVarId, Type>, s2: Map<TypeVarId, Type>)
    requires
        acyclic(s1),
        acyclic(s2),
        extends(s2, s1),
    ensures
        apply_c(t, s2) == apply_c(resolve_c(t, s1), s2),
    decreases top_rank(t, s1),
{
    if let TypeM::Var(k) = t {
        if s1.contains_key(k) {
            lemma_var_step(s1, k, k);
            assert(s2.contains_key(k) && s2[k] == s1[k]);
            lemma_var_step(s2, k, k);
            if let TypeM::Var(j) = s1[k]@ {
                assert(free_in(j, s1[k]@));
            }
            lemma_apply_resolve(s1[k]@, s1, s2);
        }
    }
}

/// Applying an extension `s2` of `s1` is applying `s1` and then `s2`.
pub proof fn lemma_apply_compose(t: TypeM, s1: Map<TypeVarId, Type>, s2: Map<TypeVarId, Type>)
    requires
        acyclic(s1),
        acyclic(s2),
        extends(s2, s1),
    ensures
        apply_c(t, s2) == apply_c(apply_c(t, s1), s2),
    decreases msize(t, s1), top_rank(t, s1) + 1,
{
    let f1 = cfuel(s1);
    let f2 = cfuel(s2);
    match t {
        TypeM::Var(k) => {
            if s1.contains_key(k) {
                lemma_var_step(s1, k, k);
                assert(s2.contains_key(k) && s2[k] == s1[k]);
                lemma_var_step(s2, k, k);
                if let TypeM::Var(j) = s1[k]@ {
                    assert(free_in(j, s1[k]@));
                }
                lemma_apply_compose(s1[k]@, s1, s2);
            }
        },
        TypeM::List(i) => lemma_apply_compose(*i, s1, s2),
        TypeM::Optional(i) => lemma_apply_compose(*i, s1, s2),
        TypeM::Dict(k, v) => {
            lemma_apply_compose(*k, s1, s2);
            lemma_apply_compose(*v, s1, s2);
        },
        TypeM::Result(k, v) => {
            lemma_apply_compose(*k, s1, s2);
            lemma_apply_compose(*v, s1, s2);
        },
        TypeM::Tuple(ts) => {
            lemma_elem_smaller(ts, s1);
            lemma_apply_seq_compose(ts, s1, s2, t);
        },
        TypeM::Function(ps, r, _) => {
            lemma_elem_smaller(ps, s1);
            lemma_apply_seq_compose(ps, s1, s2, t);
            lemma_apply_compose(*r, s1, s2);
        },
        _ => {},
    }
}

pub proof fn lemma_apply_seq_compose(
    ts: Seq<TypeM>,
    s1: Map<TypeVarId, Type>,
    s2: Map<TypeVarId, Type>,
    whole: TypeM,
)
    requires
        acyclic(s1),
        acyclic(s2),
        extends(s2, s1),
        forall|i: int| 0 <= i < ts.len() ==> msize(#[trigger] ts[i], s1) < msize(whole, s1),
    ensures
        apply_seq(ts, s2, cfuel(s2)) == apply_seq(apply_seq(ts, s1, cfuel(s1)), s2, cfuel(s2)),
    decreases msize(whole, s1), 0nat,
{
    let f1 = cfuel(s1);
    let f2 = cfuel(s2);
    let a1 = apply_seq(ts, s1, f1);
    lemma_apply_seq_index(ts, s1, f1);
    lemma_apply_seq_index(ts, s2, f2);
    lemma_apply_seq_index(a1, s2, f2);
    assert forall|i: int| 0 <= i < ts.len() implies #[trigger] apply_seq(ts, s2, f2)[i] == apply_seq(
        a1,
        s2,
        f2,
    )[i] by {
        lemma_apply_compose(ts[i], s1, s2);
    }
    assert(apply_seq(ts, s2, f2) =~= apply_seq(a1, s2, f2));
}

/// Applying a substitution to both sides keeps them matching.
pub proof fn lemma_compat_apply(a: TypeM, b: TypeM, s: Map<TypeVarId, Type>)
    requires
        acyclic(s),
        compat(a, b),
    ensures
        compat(apply_c(a, s), apply_c(b, s)),
    decreases a,
{
    let f = cfuel(s);
    if a != b {
        match (a, b) {
            (TypeM::List(x), TypeM::List(y)) => lemma_compat_apply(*x, *y, s),
            (TypeM::Optional(x), TypeM::Optional(y)) => lemma_compat_apply(*x, *y, s),
            (TypeM::Dict(k1, v1), TypeM::Dict(k2, v2)) => {
                lemma_compat_apply(*k1, *k2, s);
                lemma_compat_apply(*v1, *v2, s);
            },
            (TypeM::Result(k1, v1), TypeM::Result(k2, v2)) => {
                lemma_compat_apply(*k1, *k2, s);
                lemma_compat_apply(*v1, *v2, s);
            },
            (TypeM::Tuple(xs), TypeM::Tuple(ys)) => {
                lemma_compat_seq_apply(xs, ys, s, a);
            },
            (TypeM::Function(p1, r1, _), TypeM::Function(p2, r2, _)) => {
                lemma_compat_seq_apply(p1, p2, s, a);
                lemma_compat_apply(*r1, *r2, s);
            },
            _ => {},
        }
    }
}

pub proof fn lemma_compat_seq_apply(xs: Seq<TypeM>, ys: Seq<TypeM>, s: Map<TypeVarId, Type>, whole: TypeM)
    requires
        acyclic(s),
        compat_seq(xs, ys),
        forall|i: int| 0 <= i < xs.len() ==> decreases_to!(whole => #[trigger] xs[i]),
    ensures
        compat_seq(apply_seq(xs, s, cfuel(s)), apply_seq(ys, s, cfuel(s))),
    decreases whole, 0nat,
{
    let f = cfuel(s);
    lemma_compat_seq_index(xs, ys);
    lemma_apply_seq_index(xs, s, f);
    lemma_apply_seq_index(ys, s, f);
    assert forall|i: int| 0 <= i < xs.len() implies #[trigger] compat(
        apply_seq(xs, s, f)[i],
        apply_seq(ys, s, f)[i],
    ) by {
        assert(compat(xs[i], ys[i]));
        lemma_compat_apply(xs[i], ys[i], s);
    }
    lemma_compat_seq_index(apply_seq(xs, s, f), apply_seq(ys, s, f));
}

/// Types that match under a substitution still match under any extension.
pub proof fn lemma_compat_extend(a: TypeM, b: TypeM, s1: Map<TypeVarId, Type>, s2: Map<TypeVarId, Type>)
    requires
        acyclic(s1),
        acyclic(s2),
        extends(s2, s1),
        compat(apply_c(a, s1), apply_c(b, s1)),
    ensures
        compat(apply_c(a, s2), apply_c(b, s2)),
{
    lemma_apply_compose(a, s1, s2);
    lemma_apply_compose(b, s1, s2);
    lemma_compat_apply(apply_c(a, s1), apply_c(b, s1), s2);
}

/// Applying a substitution twice is applying it once.
pub proof fn lemma_apply_idempotent(t: TypeM, s: Map<TypeVarId, Type>)
    requires
        acyclic(s),
    ensures
        apply_c(apply_c(t, s), s) == apply_c(t, s),
{
    lemma_apply_compose(t, s, s);
}

/// A type with its variables replaced by the error type has no variables.
pub proof fn lemma_strip_no_vars(t: TypeM)
    ensures
        !has_vars_m(strip_vars(t)),
    decreases t,
{
    match t {
        TypeM::List(i) => lemma_strip_no_vars(*i),
        TypeM::Optional(i) => lemma_strip_no_vars(*i),
        TypeM::Dict(k, v) => {
            lemma_strip_no_vars(*k);
            lemma_strip_no_vars(*v);
        },
        TypeM::Result(k, v) => {
            lemma_strip_no_vars(*k);
            lemma_strip_no_vars(*v);
        },
        TypeM::Tuple(ts) => lemma_strip_seq_no_vars(ts, t),
        TypeM::Function(ps, r, _) => {
            lemma_strip_seq_no_vars(ps, t);
            lemma_strip_no_vars(*r);
        },
        _ => {},
    }
}

proof fn lemma_strip_seq_no_vars(ts: Seq<TypeM>, whole: TypeM)
    requires
        forall|i: int| 0 <= i < ts.len() ==> decreases_to!(whole => #[trigger] ts[i]),
    ensures
        !has_vars_seq(strip_seq(ts)),
    decreases whole, ts.len(),
{
    if ts.len() > 0 {
        assert(decreases_to!(whole => ts[ts.len() - 1]));
        lemma_strip_no_vars(ts.last());
        assert forall|i: int| 0 <= i < ts.drop_last().len() implies decreases_to!(whole => #[trigger] ts.drop_last()[i]) by {
            assert(ts.drop_last()[i] == ts[i]);
        }
        lemma_strip_seq_no_vars(ts.drop_last(), whole);
        assert(strip_seq(ts).drop_last() =~= strip_seq(ts.drop_last()));
    }
}

/// A type whose variables the substitution leaves alone is unchanged by it.
proof fn lemma_apply_fixed(t: TypeM, s: Map<TypeVarId, Type>, f: nat)
    requires
        !has_vars_m(t) || s == Map::<TypeVarId, Type>::empty(),
    ensures
        apply_m(t, s, f) == t,
    decreases t,
{
    match t {
        TypeM::List(i) => lemma_apply_fixed(*i, s, f),
        TypeM::Optional(i) => lemma_apply_fixed(*i, s, f),
        TypeM::Dict(k, v) => {
            lemma_apply_fixed(*k, s, f);
            lemma_apply_fixed(*v, s, f);
        },
        TypeM::Result(k, v) => {
            lemma_apply_fixed(*k, s, f);
            lemma_apply_fixed(*v, s, f);
        },
        TypeM::Tuple(ts) => lemma_apply_seq_fixed(ts, s, f),
        TypeM::Function(ps, r, _) => {
            lemma_apply_seq_fixed(ps, s, f);
            lemma_apply_fixed(*r, s, f);
        },
        _ => {},
    }
}

proof fn lemma_apply_seq_fixed(ts: Seq<TypeM>, s: Map<TypeVarId, Type>, f: nat)
    requires
        !has_vars_seq(ts) || s == Map::<TypeVarId, Type>::empty(),
    ensures
        apply_seq(ts, s, f) == ts,
    decreases ts,
{
    if ts.len() > 0 {
        lemma_apply_seq_fixed(ts.drop_last(), s, f);
        lemma_apply_fixed(ts.last(), s, f);
        assert(ts.drop_last().push(ts.last()) =~= ts);
    }
}

/// The empty substitution leaves every type unchanged.
pub proof fn lemma_apply_empty(t: TypeM)
    ensures
        apply_c(t, Map::<TypeVarId, Type>::empty()) == t,
{
    lemma_apply_fixed(t, Map::<TypeVarId, Type>::empty(), cfuel(Map::<TypeVarId, Type>::empty()));
}

/// A type that mentions no type variable is left unchanged by every
/// substitution.
pub proof fn lemma_apply_ground(t: TypeM, s: Map<TypeVarId, Type>)
    requires
        !has_vars_m(t),
    ensures
        apply_c(t, s) == t,
{
    lemma_apply_fixed(t, s, cfuel(s));
}

} // verus!
