//! Unification of types under a substitution.
use std::collections::HashMap;
use vstd::prelude::*;
use crate::infer::types::{Type, TypeM, TypeVarId, duplicate_effects, has_vars_m, lemma_types_view, types_view};
use crate::infer::error::{TypeError, var_display, var_name};
use crate::infer::subst::{
    acyclic, apply_c, apply_seq, cfuel, compat, compat_seq, extends, free_in, lemma_apply_resolve,
    lemma_apply_seq_index, lemma_bind_acyclic, lemma_compat_extend, lemma_compat_seq_index,
    lemma_elem_smaller, lemma_occurs_seq_exists, lemma_occurs_seq_take, lemma_strip_no_vars, lemma_strip_seq_index, lemma_var_step, msize,
    occurs_c, occurs_m, occurs_seq, resolve_c, strip_seq, strip_vars, top_rank,
};

verus! {

broadcast use vstd::std_specs::hash::group_hash_axioms, vstd::std_specs::vec::group_vec_axioms;

/// Substitution map: type variable ID to resolved type
pub type Substitution = HashMap<TypeVarId, Type>;

/// Resolve a type through the substitution chain: if the type is a variable
/// that has been bound, follow the chain.
pub fn resolve(ty: &Type, subst: &Substitution) -> (r: Type)
    requires
        acyclic(subst@),
    ensures
        r@ == resolve_c(ty@, subst@),
        r@ matches TypeM::Var(id) ==> !subst@.contains_key(id),
    decreases top_rank(ty@, subst@),
{
    match ty {
        Type::Var(id) => {
            match subst.get(id) {
                Some(bound) => {
                    proof {
                        lemma_var_step(subst@, *id, *id);
                        if let TypeM::Var(j) = bound@ {
                            assert(free_in(j, subst@[*id]@));
                        }
                    }
                    resolve(bound, subst)
                },
                None => ty.duplicate(),
            }
        },
        _ => ty.duplicate(),
    }
}

/// Check if a type variable occurs within a type (prevents infinite types).
fn occurs(var_id: TypeVarId, ty: &Type, subst: &Substitution) -> (r: bool)
    requires
        acyclic(subst@),
    ensures
        r == occurs_c(var_id, ty@, subst@),
    decreases msize(ty@, subst@), top_rank(ty@, subst@) + 1,
{
    match ty {
        Type::Var(id) => {
            if *id == var_id {
                return true;
            }
            match subst.get(id) {
                Some(bound) => {
                    proof {
                        lemma_var_step(subst@, *id, var_id);
                        if let TypeM::Var(j) = bound@ {
                            assert(free_in(j, subst@[*id]@));
                        }
                    }
                    occurs(var_id, bound, subst)
                },
                None => false,
            }
        },
        Type::List(inner) => occurs(var_id, inner, subst),
        Type::Optional(inner) => occurs(var_id, inner, subst),
        Type::Dict(k, v) => occurs(var_id, k, subst) || occurs(var_id, v, subst),
        Type::Result(k, v) => occurs(var_id, k, subst) || occurs(var_id, v, subst),
        Type::Tuple(elems) => {
            proof {
                lemma_types_view(elems@);
                lemma_elem_smaller(ty@->Tuple_0, subst@);
                assert forall|i: int| 0 <= i < elems@.len() implies msize(#[trigger] elems@[i]@, subst@)
                    < msize(ty@, subst@) by {
                    assert(ty@->Tuple_0[i] == elems@[i]@);
                }
            }
            occurs_in_any(var_id, elems, subst, Ghost(ty@))
        },
        Type::Function { params, return_type, .. } => {
            proof {
                lemma_types_view(params@);
                lemma_elem_smaller(ty@->Function_0, subst@);
                assert forall|i: int| 0 <= i < params@.len() implies msize(#[trigger] params@[i]@, subst@)
                    < msize(ty@, subst@) by {
                    assert(ty@->Function_0[i] == params@[i]@);
                }
            }
            occurs_in_any(var_id, params, subst, Ghost(ty@)) || occurs(var_id, return_type, subst)
        },
        _ => false,
    }
}

/// Whether the variable occurs in some type of `elems`, a part of `whole`.
fn occurs_in_any(var_id: TypeVarId, elems: &Vec<Type>, subst: &Substitution, Ghost(whole): Ghost<TypeM>) -> (r: bool)
    requires
        acyclic(subst@),
        forall|i: int| 0 <= i < elems@.len() ==> msize(#[trigger] elems@[i]@, subst@) < msize(whole, subst@),
    ensures
        r == occurs_seq(var_id, crate::infer::types::types_view(elems@), subst@, cfuel(subst@)),
    decreases msize(whole, subst@), 0nat,
{
    let ghost ts = crate::infer::types::types_view(elems@);
    proof {
        lemma_types_view(elems@);
    }
    let mut i: usize = 0;
    while i < elems.len()
        invariant
            acyclic(subst@),
            i <= elems@.len(),
            ts == crate::infer::types::types_view(elems@),
            ts.len() == elems@.len(),
            forall|j: int| 0 <= j < elems@.len() ==> #[trigger] ts[j] == elems@[j]@,
            forall|j: int| 0 <= j < elems@.len() ==> msize(#[trigger] elems@[j]@, subst@) < msize(whole, subst@),
            !occurs_seq(var_id, ts.take(i as int), subst@, cfuel(subst@)),
        decreases elems@.len() - i,
    {
        proof {
            lemma_occurs_seq_take(var_id, ts, subst@, cfuel(subst@), i as int);
        }
        if occurs(var_id, &elems[i], subst) {
            proof {
                lemma_occurs_seq_exists(var_id, ts, subst@, cfuel(subst@));
                assert(occurs_m(var_id, ts[i as int], subst@, cfuel(subst@)));
            }
            return true;
        }
        i = i + 1;
    }
    assert(ts.take(i as int) =~= ts);
    false
}

/// Bind a type variable to a type, with occurs check.
fn bind(var_id: TypeVarId, ty: &Type, subst: &mut Substitution) -> (r: Result<(), TypeError>)
    requires
        acyclic(old(subst)@),
        !old(subst)@.contains_key(var_id),
    ensures
        acyclic(final(subst)@),
        extends(final(subst)@, old(subst)@),
        r is Ok <==> (ty@ == TypeM::Var(var_id) || !occurs_c(var_id, ty@, old(subst)@)),
        r is Ok && ty@ != TypeM::Var(var_id) ==> final(subst)@.contains_key(var_id)
            && final(subst)@[var_id]@ == ty@ && final(subst)@ == old(subst)@.insert(var_id, final(subst)@[var_id]),
        r is Ok && ty@ == TypeM::Var(var_id) ==> final(subst)@ == old(subst)@,
        r matches Err(e) ==> (final(subst)@ == old(subst)@ && (e matches TypeError::InfiniteType {
            var,
            ty: t,
        } && var@ == var_display(var_id) && t@ == ty@)),
{
    // Don't bind a variable to itself
    if let Type::Var(id) = ty {
        if *id == var_id {
            return Ok(());
        }
    }
    // Occurs check: prevent infinite types like T = List[T]
    if occurs(var_id, ty, subst) {
        return Err(TypeError::InfiniteType { var: var_name(var_id), ty: ty.duplicate() });
    }
    let bound = ty.duplicate();
    proof {
        lemma_bind_acyclic(subst@, var_id, bound);
    }
    subst.insert(var_id, bound);
    Ok(())
}

/// What `len()` of a map tells: the size of its domain fits in `usize`.
proof fn lemma_dom_grows(s0: Map<TypeVarId, Type>, s1: Map<TypeVarId, Type>)
    requires
        extends(s1, s0),
        s0.dom().finite(),
        s1.dom().finite(),
    ensures
        s1.dom() =~= s0.dom() ==> s1 =~= s0,
        !(s1.dom() =~= s0.dom()) ==> s0.len() < s1.len(),
{
    assert(s0.dom().subset_of(s1.dom()));
    vstd::set_lib::lemma_len_subset(s0.dom(), s1.dom());
    if s0.dom().len() == s1.dom().len() {
        vstd::set_lib::lemma_subset_equality(s0.dom(), s1.dom());
    }
}

proof fn lemma_extends_trans(s0: Map<TypeVarId, Type>, s1: Map<TypeVarId, Type>, s2: Map<TypeVarId, Type>)
    requires
        extends(s1, s0),
        extends(s2, s1),
    ensures
        extends(s2, s0),
{
    assert forall|k: TypeVarId| #[trigger] s0.contains_key(k) implies s2.contains_key(k) && s2[k] == s0[k] by {
        assert(s1.contains_key(k));
    }
}

/// Sequences match themselves.
proof fn lemma_compat_seq_refl(xs: Seq<TypeM>)
    ensures
        compat_seq(xs, xs),
{
    lemma_compat_seq_index(xs, xs);
}

/// A tuple of matching sequences matches.
proof fn lemma_compat_tuple(xs: Seq<TypeM>, ys: Seq<TypeM>)
    ensures
        compat(TypeM::Tuple(xs), TypeM::Tuple(ys)) <==> compat_seq(xs, ys),
{
    if xs == ys {
        lemma_compat_seq_refl(xs);
    }
}

/// The outermost constructors of two resolved types rule out any match:
/// neither is a variable, an error or the bottom type, and they are not two
/// instances of one constructor that unification takes apart.
pub open spec fn heads_clash(x: TypeM, y: TypeM) -> bool {
    &&& x != y
    &&& !(x is Var) && !(y is Var)
    &&& !(x is Error) && !(y is Error) && !(x is Never) && !(y is Never)
    &&& !(x is List && y is List)
    &&& !(x is Dict && y is Dict)
    &&& !(x is Optional && y is Optional)
    &&& !(x is Result && y is Result)
    &&& !(x is Tuple && y is Tuple && x->Tuple_0.len() == y->Tuple_0.len())
    &&& !(x is Function && y is Function && x->Function_0.len() == y->Function_0.len())
    &&& !(x is Struct && y is Struct && x->Struct_0.name == y->Struct_0.name)
    &&& !(x is Enum && y is Enum && x->Enum_0.name == y->Enum_0.name)
    &&& !(x is Named && y is Named && x->Named_0 == y->Named_0)
    &&& !(x is Int && y is Float) && !(x is Float && y is Int)
}

/// What is known of one unification of `a` with `b` under `s0`, giving
/// `s1` and succeeding when `ok`, from the types as they resolve under
/// `s0`: equal types unify with no new binding; a variable unifies with a
/// type it does not occur in, and is then bound to that type and nothing
/// else is bound, while an occurring variable fails and binds nothing; the
/// error type and the bottom type unify with anything; `int` and `float`
/// unify (numeric widening) with no new binding; clashing heads fail and
/// bind nothing.
pub open spec fn unify_step(
    a: TypeM,
    b: TypeM,
    s0: Map<TypeVarId, Type>,
    s1: Map<TypeVarId, Type>,
    ok: bool,
) -> bool {
    let ra = resolve_c(a, s0);
    let rb = resolve_c(b, s0);
    &&& ra == rb ==> ok && s1 == s0
    &&& ra matches TypeM::Var(id) ==> (ok <==> (rb == ra || !occurs_c(id, rb, s0)))
    &&& !(ra is Var) ==> (rb matches TypeM::Var(id) ==> (ok <==> !occurs_c(id, ra, s0)))
    &&& !(ra is Var) && !(rb is Var) && (ra is Error || rb is Error || ra is Never || rb is Never) ==> ok
        && s1 == s0
    &&& heads_clash(ra, rb) ==> !ok && s1 == s0
    &&& (ra is Var && rb != ra && ok) ==> s1.contains_key(ra->Var_0) && s1[ra->Var_0]@ == rb && s1
        == s0.insert(ra->Var_0, s1[ra->Var_0])
    &&& (!(ra is Var) && rb is Var && ok) ==> s1.contains_key(rb->Var_0) && s1[rb->Var_0]@ == ra && s1
        == s0.insert(rb->Var_0, s1[rb->Var_0])
    &&& ((ra is Var || rb is Var) && !ok) ==> s1 == s0
    &&& ((ra is Int && rb is Float) || (ra is Float && rb is Int)) ==> ok && s1 == s0
}

/// The `i`-th pair of `xs` and `ys` unifies under `ss[i]`, giving `ss[i + 1]`.
pub open spec fn step_link(
    xs: Seq<TypeM>,
    ys: Seq<TypeM>,
    ss: Seq<Map<TypeVarId, Type>>,
    i: int,
) -> bool {
    unify_step(xs[i], ys[i], ss[i], ss[i + 1], true) && extends(ss[i + 1], ss[i])
}

/// Pairs of `xs` and `ys` unified one after another through the
/// substitutions `ss`, starting from `ss[0]`: every pair before the last
/// substitution succeeded; when `ok` all pairs did and `s2` is the last
/// substitution, otherwise the next pair failed, giving `s2`.
pub open spec fn steps_via(
    xs: Seq<TypeM>,
    ys: Seq<TypeM>,
    ss: Seq<Map<TypeVarId, Type>>,
    s2: Map<TypeVarId, Type>,
    ok: bool,
) -> bool {
    let k = ss.len() - 1;
    &&& ss.len() >= 1
    &&& forall|i: int| 0 <= i < k ==> #[trigger] step_link(xs, ys, ss, i)
    &&& ok ==> k == xs.len() && s2 == ss[k]
    &&& !ok ==> k < xs.len() && unify_step(xs[k], ys[k], ss[k], s2, false)
}

/// What is known of unifying the pairs of `xs` and `ys` in order, from
/// `s0` to `s2`, stopping at the first that fails: each pair is one
/// `unify_step`.
pub open spec fn seq_steps(
    xs: Seq<TypeM>,
    ys: Seq<TypeM>,
    s0: Map<TypeVarId, Type>,
    s2: Map<TypeVarId, Type>,
    ok: bool,
) -> bool {
    exists|ss: Seq<Map<TypeVarId, Type>>| #[trigger] steps_via(xs, ys, ss, s2, ok) && ss[0] == s0
}

/// What is known of unifying `x1` with `y1` and then, if that succeeds,
/// `x2` with `y2`, from `s0` to `s2`: each is one `unify_step`.
pub open spec fn pair_steps(
    x1: TypeM,
    y1: TypeM,
    x2: TypeM,
    y2: TypeM,
    s0: Map<TypeVarId, Type>,
    s2: Map<TypeVarId, Type>,
    ok: bool,
) -> bool {
    exists|s1: Map<TypeVarId, Type>, ok1: bool|
        #![trigger unify_step(x1, y1, s0, s1, ok1)]
        unify_step(x1, y1, s0, s1, ok1) && extends(s1, s0) && (ok1 ==> unify_step(x2, y2, s1, s2, ok))
            && (!ok1 ==> !ok && s2 == s1)
}

/// Unify two types, extending the substitution so that they match.
///
/// This is the core of Hindley-Milner type inference: given types A and B,
/// unification either binds type variables so that A and B match, or
/// returns an error if the types are incompatible.
pub fn unify(a: &Type, b: &Type, subst: &mut Substitution) -> (r: Result<(), TypeError>)
    requires
        acyclic(old(subst)@),
    ensures
        acyclic(final(subst)@),
        extends(final(subst)@, old(subst)@),
        r is Ok ==> compat(apply_c(a@, final(subst)@), apply_c(b@, final(subst)@)),
        unify_step(a@, b@, old(subst)@, final(subst)@, r is Ok),
        ({
            let ra = resolve_c(a@, old(subst)@);
            let rb = resolve_c(b@, old(subst)@);
            &&& ra matches TypeM::Var(id) ==> (r matches Err(e) ==> (e matches TypeError::InfiniteType {
                var,
                ty,
            } && var@ == var_display(id) && ty@ == rb))
            &&& heads_clash(ra, rb) ==> (r matches Err(TypeError::Mismatch { expected, found }) && expected@
                == ra && found@ == rb)
            &&& (ra matches TypeM::List(x) && rb matches TypeM::List(y)) ==> unify_step(
                *ra->List_0,
                *rb->List_0,
                old(subst)@,
                final(subst)@,
                r is Ok,
            )
            &&& (ra matches TypeM::Optional(x) && rb matches TypeM::Optional(y)) ==> unify_step(
                *ra->Optional_0,
                *rb->Optional_0,
                old(subst)@,
                final(subst)@,
                r is Ok,
            )
            &&& (ra is Dict && rb is Dict) ==> pair_steps(
                *ra->Dict_0,
                *rb->Dict_0,
                *ra->Dict_1,
                *rb->Dict_1,
                old(subst)@,
                final(subst)@,
                r is Ok,
            )
            &&& (ra is Result && rb is Result) ==> pair_steps(
                *ra->Result_0,
                *rb->Result_0,
                *ra->Result_1,
                *rb->Result_1,
                old(subst)@,
                final(subst)@,
                r is Ok,
            )
            &&& (ra is Tuple && rb is Tuple && ra->Tuple_0.len() == rb->Tuple_0.len()) ==> seq_steps(
                ra->Tuple_0,
                rb->Tuple_0,
                old(subst)@,
                final(subst)@,
                r is Ok,
            )
            &&& (ra is Function && rb is Function && ra->Function_0.len() == rb->Function_0.len()) ==> exists|
                s1: Map<TypeVarId, Type>,
                ok1: bool,
            |
                #![trigger seq_steps(ra->Function_0, rb->Function_0, old(subst)@, s1, ok1)]
                seq_steps(ra->Function_0, rb->Function_0, old(subst)@, s1, ok1) && (ok1 ==> unify_step(
                    *ra->Function_1,
                    *rb->Function_1,
                    s1,
                    final(subst)@,
                    r is Ok,
                )) && (!ok1 ==> !(r is Ok) && final(subst)@ == s1)
        }),
    decreases usize::MAX - old(subst)@.len(), msize(a@, old(subst)@) + msize(b@, old(subst)@), 1nat,
{
    let ghost s0 = subst@;
    let _ = subst.len();
    let a_orig = a;
    let b_orig = b;
    let a = resolve(a_orig, subst);
    let b = resolve(b_orig, subst);
    proof {
        lemma_apply_resolve(a_orig@, s0, s0);
        lemma_apply_resolve(b_orig@, s0, s0);
    }
    // Identical types unify trivially
    if a.same_as(&b) {
        proof {
            lemma_same_steps(a@, s0);
        }
        return Ok(());
    }
    // Type variable on either side: bind it
    if let Type::Var(id) = &a {
        let r = bind(*id, &b, subst);
        proof {
            if r is Ok {
                lemma_apply_resolve(a_orig@, s0, subst@);
                lemma_apply_resolve(b_orig@, s0, subst@);
                lemma_var_step(subst@, *id, *id);
            }
        }
        return r;
    }
    if let Type::Var(id) = &b {
        let r = bind(*id, &a, subst);
        proof {
            if r is Ok {
                lemma_apply_resolve(a_orig@, s0, subst@);
                lemma_apply_resolve(b_orig@, s0, subst@);
                lemma_var_step(subst@, *id, *id);
            }
        }
        return r;
    }
    // Error type unifies with anything (error recovery); Never is the bottom type
    if matches!(a, Type::Error) || matches!(b, Type::Error) || matches!(a, Type::Never) || matches!(b, Type::Never) {
        return Ok(());
    }
    match &a {
        // List[A] ~ List[B]: unify A with B
        Type::List(ai) => if let Type::List(bi) = &b {
            let r = unify(ai, bi, subst);
            proof {
                lemma_apply_resolve(a_orig@, s0, subst@);
                lemma_apply_resolve(b_orig@, s0, subst@);
            }
            return r;
        },
        // Dict[K1,V1] ~ Dict[K2,V2]: unify K1~K2 and V1~V2
        Type::Dict(ak, av) => if let Type::Dict(bk, bv) = &b {
            let r = unify_pair(ak, av, bk, bv, subst, Ghost(a_orig@), Ghost(b_orig@));
            proof {
                lemma_apply_resolve(a_orig@, s0, subst@);
                lemma_apply_resolve(b_orig@, s0, subst@);
            }
            return r;
        },
        // Optional[A] ~ Optional[B]
        Type::Optional(ai) => if let Type::Optional(bi) = &b {
            let r = unify(ai, bi, subst);
            proof {
                lemma_apply_resolve(a_orig@, s0, subst@);
                lemma_apply_resolve(b_orig@, s0, subst@);
            }
            return r;
        },
        // Result[A,E1] ~ Result[B,E2]
        Type::Result(ak, av) => if let Type::Result(bk, bv) = &b {
            let r = unify_pair(ak, av, bk, bv, subst, Ghost(a_orig@), Ghost(b_orig@));
            proof {
                lemma_apply_resolve(a_orig@, s0, subst@);
                lemma_apply_resolve(b_orig@, s0, subst@);
            }
            return r;
        },
        // Tuple: same length, element-wise unification
        Type::Tuple(ae) => if let Type::Tuple(be) = &b {
            if ae.len() == be.len() {
                proof {
                    lemma_types_view(ae@);
                    lemma_types_view(be@);
                    lemma_elem_smaller(a@->Tuple_0, s0);
                    lemma_elem_smaller(b@->Tuple_0, s0);
                    assert forall|i: int| 0 <= i < ae@.len() implies msize(#[trigger] ae@[i]@, s0) < msize(
                        a_orig@,
                        s0,
                    ) by {
                        assert(a@->Tuple_0[i] == ae@[i]@);
                    }
                    assert forall|i: int| 0 <= i < be@.len() implies msize(#[trigger] be@[i]@, s0) < msize(
                        b_orig@,
                        s0,
                    ) by {
                        assert(b@->Tuple_0[i] == be@[i]@);
                    }
                }
                let r = unify_all(ae, be, subst, Ghost(a_orig@), Ghost(b_orig@));
                proof {
                    lemma_apply_resolve(a_orig@, s0, subst@);
                    lemma_apply_resolve(b_orig@, s0, subst@);
                    lemma_compat_tuple(
                        apply_seq(types_view(ae@), subst@, cfuel(subst@)),
                        apply_seq(types_view(be@), subst@, cfuel(subst@)),
                    );
                }
                return r;
            }
        },
        // Function types: same arity, unify params and return
        Type::Function { params: ap, return_type: ar, .. } => if let Type::Function {
            params: bp,
            return_type: br,
            ..
        } = &b {
            if ap.len() == bp.len() {
                proof {
                    lemma_types_view(ap@);
                    lemma_types_view(bp@);
                    lemma_elem_smaller(a@->Function_0, s0);
                    lemma_elem_smaller(b@->Function_0, s0);
                    assert forall|i: int| 0 <= i < ap@.len() implies msize(#[trigger] ap@[i]@, s0) < msize(
                        a_orig@,
                        s0,
                    ) by {
                        assert(a@->Function_0[i] == ap@[i]@);
                    }
                    assert forall|i: int| 0 <= i < bp@.len() implies msize(#[trigger] bp@[i]@, s0) < msize(
                        b_orig@,
                        s0,
                    ) by {
                        assert(b@->Function_0[i] == bp@[i]@);
                    }
                }
                let r = unify_all(ap, bp, subst, Ghost(a_orig@), Ghost(b_orig@));
                if r.is_err() {
                    return r;
                }
                let ghost s1 = subst@;
                let _ = subst.len();
                proof {
                    lemma_dom_grows(s0, s1);
                }
                let r2 = unify(ar, br, subst);
                proof {
                    let s2 = subst@;
                    lemma_extends_trans(s0, s1, s2);
                    lemma_apply_resolve(a_orig@, s0, s2);
                    lemma_apply_resolve(b_orig@, s0, s2);
                    if r2 is Ok {
                        let xs = types_view(ap@);
                        let ys = types_view(bp@);
                        lemma_compat_tuple(apply_seq(xs, s1, cfuel(s1)), apply_seq(ys, s1, cfuel(s1)));
                        lemma_compat_extend(TypeM::Tuple(xs), TypeM::Tuple(ys), s1, s2);
                        lemma_compat_tuple(apply_seq(xs, s2, cfuel(s2)), apply_seq(ys, s2, cfuel(s2)));
                    }
                }
                return r2;
            }
        },
        // Struct types: same name
        Type::Struct(sa) => if let Type::Struct(sb) = &b {
            if sa.name == sb.name {
                return Ok(());
            }
        },
        // Enum types: same name
        Type::Enum(ea) => if let Type::Enum(eb) = &b {
            if ea.name == eb.name {
                return Ok(());
            }
        },
        // Named types: same name (before resolution)
        Type::Named(na) => if let Type::Named(nb) = &b {
            if *na == *nb {
                return Ok(());
            }
        },
        // Numeric coercion: int can widen to float
        Type::Int => if matches!(b, Type::Float) {
            return Ok(());
        },
        Type::Float => if matches!(b, Type::Int) {
            return Ok(());
        },
        _ => {},
    }
    proof {
        lemma_shapes(&a);
        lemma_shapes(&b);
    }
    // No match: type error
    Err(TypeError::Mismatch { expected: a, found: b })
}

/// The views of a tuple's elements and a function's parameters have as many
/// entries as the vectors.
proof fn lemma_shapes(t: &Type)
    ensures
        t@ is Tuple ==> (t matches Type::Tuple(es) && t@->Tuple_0.len() == es@.len()),
        t@ is Function ==> (t matches Type::Function { params, .. } && t@->Function_0.len() == params@.len()),
{
    match t {
        Type::Tuple(es) => {
            lemma_types_view(es@);
        },
        Type::Function { params, .. } => {
            lemma_types_view(params@);
        },
        _ => {},
    }
}

/// A type unifies with itself in one step that binds nothing.
proof fn lemma_step_refl(x: TypeM, s: Map<TypeVarId, Type>)
    ensures
        unify_step(x, x, s, s, true),
{
}

/// Unifying a type with itself: every component step binds nothing.
proof fn lemma_seq_refl(xs: Seq<TypeM>, s: Map<TypeVarId, Type>)
    ensures
        seq_steps(xs, xs, s, s, true),
{
    let ss = Seq::new((xs.len() + 1) as nat, |i: int| s);
    assert forall|i: int| 0 <= i < xs.len() implies #[trigger] step_link(xs, xs, ss, i) by {
        lemma_step_refl(xs[i], s);
    }
    assert(steps_via(xs, xs, ss, s, true));
}

/// The component clauses of `unify` for a type unified with itself with no
/// new binding.
proof fn lemma_same_steps(t: TypeM, s: Map<TypeVarId, Type>)
    ensures
        ({
            let r = resolve_c(t, s);
            &&& r is Dict ==> pair_steps(*r->Dict_0, *r->Dict_0, *r->Dict_1, *r->Dict_1, s, s, true)
            &&& r is Result ==> pair_steps(*r->Result_0, *r->Result_0, *r->Result_1, *r->Result_1, s, s, true)
            &&& r is Tuple ==> seq_steps(r->Tuple_0, r->Tuple_0, s, s, true)
            &&& r is Function ==> seq_steps(r->Function_0, r->Function_0, s, s, true) && unify_step(
                *r->Function_1,
                *r->Function_1,
                s,
                s,
                true,
            )
        }),
{
    let r = resolve_c(t, s);
    match r {
        TypeM::Dict(k, v) => {
            lemma_step_refl(*k, s);
            lemma_step_refl(*v, s);
        },
        TypeM::Result(k, v) => {
            lemma_step_refl(*k, s);
            lemma_step_refl(*v, s);
        },
        TypeM::Tuple(xs) => {
            lemma_seq_refl(xs, s);
        },
        TypeM::Function(xs, x, _) => {
            lemma_seq_refl(xs, s);
            lemma_step_refl(*x, s);
        },
        _ => {},
    }
}

/// Unify two pairs of component types, the first pair then the second.
fn unify_pair(
    ak: &Type,
    av: &Type,
    bk: &Type,
    bv: &Type,
    subst: &mut Substitution,
    Ghost(wa): Ghost<TypeM>,
    Ghost(wb): Ghost<TypeM>,
) -> (r: Result<(), TypeError>)
    requires
        acyclic(old(subst)@),
        old(subst)@.len() <= usize::MAX,
        msize(ak@, old(subst)@) + msize(av@, old(subst)@) < msize(wa, old(subst)@),
        msize(bk@, old(subst)@) + msize(bv@, old(subst)@) < msize(wb, old(subst)@),
    ensures
        acyclic(final(subst)@),
        extends(final(subst)@, old(subst)@),
        r is Ok ==> compat(apply_c(ak@, final(subst)@), apply_c(bk@, final(subst)@)) && compat(
            apply_c(av@, final(subst)@),
            apply_c(bv@, final(subst)@),
        ),
        resolve_c(ak@, old(subst)@) == resolve_c(bk@, old(subst)@) && resolve_c(av@, old(subst)@) == resolve_c(
            bv@,
            old(subst)@,
        ) ==> r is Ok && final(subst)@ == old(subst)@,
        heads_clash(resolve_c(ak@, old(subst)@), resolve_c(bk@, old(subst)@)) ==> final(subst)@ == old(subst)@
            && (r matches Err(TypeError::Mismatch { expected, found }) && expected@ == resolve_c(ak@, old(subst)@)
            && found@ == resolve_c(bk@, old(subst)@)),
        pair_steps(ak@, bk@, av@, bv@, old(subst)@, final(subst)@, r is Ok),
    decreases usize::MAX - old(subst)@.len(), msize(wa, old(subst)@) + msize(wb, old(subst)@), 0nat,
{
    let ghost s0 = subst@;
    let r1 = unify(ak, bk, subst);
    if r1.is_err() {
        assert(unify_step(ak@, bk@, s0, subst@, false));
        return r1;
    }
    let ghost s1 = subst@;
    let _ = subst.len();
    proof {
        lemma_dom_grows(s0, s1);
    }
    let r = unify(av, bv, subst);
    proof {
        lemma_extends_trans(s0, s1, subst@);
        if r is Ok {
            lemma_compat_extend(ak@, bk@, s1, subst@);
        }
        assert(unify_step(ak@, bk@, s0, s1, true));
    }
    r
}

/// Unify two equally long vectors of types element by element.
fn unify_all(
    ae: &Vec<Type>,
    be: &Vec<Type>,
    subst: &mut Substitution,
    Ghost(wa): Ghost<TypeM>,
    Ghost(wb): Ghost<TypeM>,
) -> (r: Result<(), TypeError>)
    requires
        acyclic(old(subst)@),
        old(subst)@.len() <= usize::MAX,
        ae@.len() == be@.len(),
        forall|i: int| 0 <= i < ae@.len() ==> msize(#[trigger] ae@[i]@, old(subst)@) < msize(wa, old(subst)@),
        forall|i: int| 0 <= i < be@.len() ==> msize(#[trigger] be@[i]@, old(subst)@) < msize(wb, old(subst)@),
    ensures
        acyclic(final(subst)@),
        extends(final(subst)@, old(subst)@),
        r is Ok ==> compat_seq(
            apply_seq(types_view(ae@), final(subst)@, cfuel(final(subst)@)),
            apply_seq(types_view(be@), final(subst)@, cfuel(final(subst)@)),
        ),
        (forall|i: int| 0 <= i < ae@.len() ==> resolve_c(#[trigger] ae@[i]@, old(subst)@) == resolve_c(
            be@[i]@,
            old(subst)@,
        )) ==> r is Ok && final(subst)@ == old(subst)@,
        ae@.len() > 0 && heads_clash(resolve_c(ae@[0]@, old(subst)@), resolve_c(be@[0]@, old(subst)@))
            ==> final(subst)@ == old(subst)@ && (r matches Err(TypeError::Mismatch { expected, found })
            && expected@ == resolve_c(ae@[0]@, old(subst)@) && found@ == resolve_c(be@[0]@, old(subst)@)),
        seq_steps(types_view(ae@), types_view(be@), old(subst)@, final(subst)@, r is Ok),
    decreases usize::MAX - old(subst)@.len(), msize(wa, old(subst)@) + msize(wb, old(subst)@), 0nat,
{
    let ghost s0 = subst@;
    proof {
        vstd::std_specs::hash::axiom_hashmap_view_finite_dom(*subst);
    }
    let ghost xs = types_view(ae@);
    let ghost ys = types_view(be@);
    proof {
        lemma_types_view(ae@);
        lemma_types_view(be@);
    }
    let ghost mut ss: Seq<Map<TypeVarId, Type>> = seq![s0];
    let mut i: usize = 0;
    while i < ae.len()
        invariant
            ss.len() == i + 1,
            ss[0] == s0,
            ss[i as int] == subst@,
            forall|j: int| 0 <= j < i ==> #[trigger] step_link(xs, ys, ss, j),
            acyclic(subst@),
            extends(subst@, s0),
            acyclic(s0),
            s0 == old(subst)@,
            s0.len() <= usize::MAX,
            s0.dom().finite(),
            i <= ae@.len(),
            ae@.len() == be@.len(),
            xs == types_view(ae@),
            ys == types_view(be@),
            xs.len() == ae@.len() && ys.len() == be@.len(),
            forall|j: int| 0 <= j < ae@.len() ==> #[trigger] xs[j] == ae@[j]@,
            forall|j: int| 0 <= j < be@.len() ==> #[trigger] ys[j] == be@[j]@,
            forall|j: int| 0 <= j < ae@.len() ==> msize(#[trigger] ae@[j]@, s0) < msize(wa, s0),
            forall|j: int| 0 <= j < be@.len() ==> msize(#[trigger] be@[j]@, s0) < msize(wb, s0),
            forall|j: int|
                0 <= j < i ==> #[trigger] compat(apply_c(xs[j], subst@), apply_c(ys[j], subst@)),
            (forall|j: int| 0 <= j < ae@.len() ==> resolve_c(#[trigger] ae@[j]@, s0) == resolve_c(be@[j]@, s0))
                ==> subst@ == s0,
            i == 0 ==> subst@ == s0,
            i > 0 ==> !heads_clash(resolve_c(ae@[0]@, s0), resolve_c(be@[0]@, s0)),
        decreases ae@.len() - i,
    {
        let ghost s1 = subst@;
        let _ = subst.len();
        proof {
            vstd::std_specs::hash::axiom_hashmap_view_finite_dom(*subst);
            lemma_dom_grows(s0, s1);
            if s1.dom() =~= s0.dom() {
                assert(s1 == s0);
                assert(msize(ae@[i as int]@, s1) < msize(wa, s0));
                assert(msize(be@[i as int]@, s1) < msize(wb, s0));
            } else {
                assert(s0.len() < s1.len());
            }
        }
        let r = unify(&ae[i], &be[i], subst);
        proof {
            lemma_extends_trans(s0, s1, subst@);
        }
        match r {
            Err(e) => {
                proof {
                    assert(steps_via(xs, ys, ss, subst@, false));
                }
                return Err(e);
            },
            Ok(()) => {},
        }
        proof {
            let ss0 = ss;
            ss = ss.push(subst@);
            assert forall|j: int| 0 <= j < i + 1 implies #[trigger] step_link(xs, ys, ss, j) by {
                if j < i {
                    assert(step_link(xs, ys, ss0, j));
                    assert(ss[j] == ss0[j] && ss[j + 1] == ss0[j + 1]);
                }
            }
        }
        proof {
            let s2 = subst@;
            assert forall|j: int| 0 <= j < i + 1 implies #[trigger] compat(
                apply_c(xs[j], s2),
                apply_c(ys[j], s2),
            ) by {
                if j < i {
                    lemma_compat_extend(xs[j], ys[j], s1, s2);
                }
            }
        }
        i = i + 1;
    }
    proof {
        let s = subst@;
        let f = cfuel(s);
        lemma_apply_seq_index(xs, s, f);
        lemma_apply_seq_index(ys, s, f);
        assert forall|j: int| 0 <= j < xs.len() implies #[trigger] compat(
            apply_seq(xs, s, f)[j],
            apply_seq(ys, s, f)[j],
        ) by {
            assert(compat(apply_c(xs[j], s), apply_c(ys[j], s)));
        }
        lemma_compat_seq_index(apply_seq(xs, s, f), apply_seq(ys, s, f));
        assert(steps_via(xs, ys, ss, s, true));
    }
    Ok(())
}

/// Apply the substitution to a type, resolving all variables to their final
/// types. Variables that remain unresolved become the error type.
pub fn finalize(ty: &Type, subst: &Substitution) -> (r: Type)
    requires
        acyclic(subst@),
    ensures
        r@ == strip_vars(apply_c(ty@, subst@)),
        !has_vars_m(r@),
    decreases msize(ty@, subst@), 1nat,
{
    proof {
        lemma_strip_no_vars(apply_c(ty@, subst@));
    }
    let resolved = resolve(ty, subst);
    proof {
        lemma_apply_resolve(ty@, subst@, subst@);
    }
    match resolved {
        // Unresolved variable: could not infer
        Type::Var(_) => Type::Error,
        Type::List(inner) => Type::List(Box::new(finalize(&inner, subst))),
        Type::Dict(k, v) => Type::Dict(Box::new(finalize(&k, subst)), Box::new(finalize(&v, subst))),
        Type::Optional(inner) => Type::Optional(Box::new(finalize(&inner, subst))),
        Type::Result(ok, err) => Type::Result(
            Box::new(finalize(&ok, subst)),
            Box::new(finalize(&err, subst)),
        ),
        Type::Tuple(elems) => {
            let ghost whole = Type::Tuple(elems)@;
            proof {
                lemma_types_view(elems@);
                lemma_elem_smaller(whole->Tuple_0, subst@);
                assert forall|i: int| 0 <= i < elems@.len() implies msize(#[trigger] elems@[i]@, subst@)
                    < msize(ty@, subst@) by {
                    assert(whole->Tuple_0[i] == elems@[i]@);
                }
            }
            let fs = finalize_all(&elems, subst, Ghost(ty@));
            Type::Tuple(fs)
        },
        Type::Function { params, return_type, effects } => {
            let ghost whole = (Type::Function { params, return_type, effects })@;
            proof {
                lemma_types_view(params@);
                lemma_elem_smaller(whole->Function_0, subst@);
                assert forall|i: int| 0 <= i < params@.len() implies msize(#[trigger] params@[i]@, subst@)
                    < msize(ty@, subst@) by {
                    assert(whole->Function_0[i] == params@[i]@);
                }
            }
            let ps = finalize_all(&params, subst, Ghost(ty@));
            let rt = finalize(&return_type, subst);
            Type::Function { params: ps, return_type: Box::new(rt), effects }
        },
        other => other,
    }
}

/// `finalize` on each type of `elems`, parts of `whole`.
fn finalize_all(elems: &Vec<Type>, subst: &Substitution, Ghost(whole): Ghost<TypeM>) -> (r: Vec<Type>)
    requires
        acyclic(subst@),
        forall|i: int| 0 <= i < elems@.len() ==> msize(#[trigger] elems@[i]@, subst@) < msize(whole, subst@),
    ensures
        types_view(r@) == strip_seq(apply_seq(types_view(elems@), subst@, cfuel(subst@))),
    decreases msize(whole, subst@), 0nat,
{
    let ghost ts = types_view(elems@);
    let ghost target = strip_seq(apply_seq(ts, subst@, cfuel(subst@)));
    proof {
        lemma_types_view(elems@);
        lemma_apply_seq_index(ts, subst@, cfuel(subst@));
        lemma_strip_seq_index(apply_seq(ts, subst@, cfuel(subst@)));
    }
    let mut out: Vec<Type> = Vec::new();
    let mut i: usize = 0;
    while i < elems.len()
        invariant
            acyclic(subst@),
            i <= elems@.len(),
            out@.len() == i,
            ts == types_view(elems@),
            ts.len() == elems@.len(),
            target.len() == elems@.len(),
            forall|j: int| 0 <= j < elems@.len() ==> #[trigger] ts[j] == elems@[j]@,
            forall|j: int| 0 <= j < elems@.len() ==> msize(#[trigger] elems@[j]@, subst@) < msize(whole, subst@),
            forall|j: int| 0 <= j < elems@.len() ==> #[trigger] target[j] == strip_vars(apply_c(ts[j], subst@)),
            forall|j: int| 0 <= j < i ==> #[trigger] out@[j]@ == target[j],
        decreases elems@.len() - i,
    {
        let t = finalize(&elems[i], subst);
        out.push(t);
        i = i + 1;
    }
    proof {
        lemma_types_view(out@);
        assert(types_view(out@) =~= target);
    }
    out
}

impl Type {
    /// Substitute type variables using a substitution map, recursively.
    pub fn apply_substitution(&self, subst: &HashMap<TypeVarId, Type>) -> (r: Type)
        requires
            acyclic(subst@),
        ensures
            r@ == apply_c(self@, subst@),
        decreases msize(self@, subst@), top_rank(self@, subst@) + 1,
    {
        match self {
            Type::Var(id) => {
                match subst.get(id) {
                    Some(t) => {
                        proof {
                            lemma_var_step(subst@, *id, *id);
                            if let TypeM::Var(j) = t@ {
                                assert(free_in(j, subst@[*id]@));
                            }
                        }
                        t.apply_substitution(subst)
                    },
                    None => self.duplicate(),
                }
            },
            Type::List(t) => Type::List(Box::new(t.apply_substitution(subst))),
            Type::Optional(t) => Type::Optional(Box::new(t.apply_substitution(subst))),
            Type::Dict(k, v) => Type::Dict(
                Box::new(k.apply_substitution(subst)),
                Box::new(v.apply_substitution(subst)),
            ),
            Type::Result(t, e) => Type::Result(
                Box::new(t.apply_substitution(subst)),
                Box::new(e.apply_substitution(subst)),
            ),
            Type::Tuple(ts) => {
                proof {
                    lemma_types_view(ts@);
                    lemma_elem_smaller(self@->Tuple_0, subst@);
                    assert forall|i: int| 0 <= i < ts@.len() implies msize(#[trigger] ts@[i]@, subst@)
                        < msize(self@, subst@) by {
                        assert(self@->Tuple_0[i] == ts@[i]@);
                    }
                }
                Type::Tuple(apply_all(ts, subst, Ghost(self@)))
            },
            Type::Function { params, return_type, effects } => {
                proof {
                    lemma_types_view(params@);
                    lemma_elem_smaller(self@->Function_0, subst@);
                    assert forall|i: int| 0 <= i < params@.len() implies msize(#[trigger] params@[i]@, subst@)
                        < msize(self@, subst@) by {
                        assert(self@->Function_0[i] == params@[i]@);
                    }
                }
                let ps = apply_all(params, subst, Ghost(self@));
                let rt = return_type.apply_substitution(subst);
                let es = duplicate_effects(effects);
                Type::Function { params: ps, return_type: Box::new(rt), effects: es }
            },
            _ => self.duplicate(),
        }
    }
}

/// `apply_substitution` on each type of `elems`, parts of `whole`.
fn apply_all(elems: &Vec<Type>, subst: &Substitution, Ghost(whole): Ghost<TypeM>) -> (r: Vec<Type>)
    requires
        acyclic(subst@),
        forall|i: int| 0 <= i < elems@.len() ==> msize(#[trigger] elems@[i]@, subst@) < msize(whole, subst@),
    ensures
        types_view(r@) == apply_seq(types_view(elems@), subst@, cfuel(subst@)),
    decreases msize(whole, subst@), 0nat,
{
    let ghost ts = types_view(elems@);
    let ghost target = apply_seq(ts, subst@, cfuel(subst@));
    proof {
        lemma_types_view(elems@);
        lemma_apply_seq_index(ts, subst@, cfuel(subst@));
    }
    let mut out: Vec<Type> = Vec::new();
    let mut i: usize = 0;
    while i < elems.len()
        invariant
            acyclic(subst@),
            i <= elems@.len(),
            out@.len() == i,
            ts == types_view(elems@),
            ts.len() == elems@.len(),
            target.len() == elems@.len(),
            forall|j: int| 0 <= j < elems@.len() ==> #[trigger] ts[j] == elems@[j]@,
            forall|j: int| 0 <= j < elems@.len() ==> msize(#[trigger] elems@[j]@, subst@) < msize(whole, subst@),
            forall|j: int| 0 <= j < elems@.len() ==> #[trigger] target[j] == apply_c(ts[j], subst@),
            forall|j: int| 0 <= j < i ==> #[trigger] out@[j]@ == target[j],
        decreases elems@.len() - i,
    {
        let t = elems[i].apply_substitution(subst);
        out.push(t);
        i = i + 1;
    }
    proof {
        lemma_types_view(out@);
        assert(types_view(out@) =~= target);
    }
    out
}

} // verus!
