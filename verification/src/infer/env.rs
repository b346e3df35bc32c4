//! The type environment of inference: nested scopes of variables,
//! functions and named types, and the context of the enclosing function.
use vstd::prelude::*;
use crate::check::types::spells;
use crate::infer::ast::TypeExpr;
use crate::infer::types::{
    Effect, EffectM, FunctionSig, Type, TypeM, TypeVarId, effects_view, fields_view,
    group_type_views, types_view,
};

verus! {

broadcast use vstd::std_specs::vec::group_vec_axioms, group_type_views;

// ── Model ───────────────────────────────────────────────────

/// The value of a function signature.
pub struct SigM {
    pub name: Seq<char>,
    pub params: Seq<(Seq<char>, TypeM)>,
    pub ret: TypeM,
    pub effects: Seq<EffectM>,
    pub is_pure: bool,
    pub is_pub: bool,
}

impl View for FunctionSig {
    type V = SigM;

    open spec fn view(&self) -> SigM {
        SigM {
            name: self.name@,
            params: fields_view(self.params@),
            ret: self.return_type@,
            effects: effects_view(self.effects@),
            is_pure: self.is_pure,
            is_pub: self.is_pub,
        }
    }
}

/// The value of one scope: its bindings in the order they were made, and,
/// for a function body, the function's return type, effects and purity.
pub struct ScopeM {
    pub vars: Seq<(Seq<char>, TypeM, bool)>,
    pub funcs: Seq<SigM>,
    pub types: Seq<(Seq<char>, TypeM)>,
    pub ret: Option<TypeM>,
    pub effects: Seq<EffectM>,
    pub is_pure: bool,
}

/// A scope with no bindings that is not a function body.
pub open spec fn empty_scope() -> ScopeM {
    ScopeM {
        vars: Seq::empty(),
        funcs: Seq::empty(),
        types: Seq::empty(),
        ret: None,
        effects: Seq::empty(),
        is_pure: false,
    }
}

/// The scope of a function body.
pub open spec fn function_scope(ret: TypeM, effects: Seq<EffectM>, is_pure: bool) -> ScopeM {
    ScopeM { ret: Some(ret), effects, is_pure, ..empty_scope() }
}

/// The latest binding of `name` among `vs`.
pub open spec fn find_var(vs: Seq<(Seq<char>, TypeM, bool)>, name: Seq<char>) -> Option<(TypeM, bool)>
    decreases vs.len(),
{
    if vs.len() == 0 {
        None
    } else if vs.last().0 == name {
        Some((vs.last().1, vs.last().2))
    } else {
        find_var(vs.drop_last(), name)
    }
}

/// The latest signature named `name` among `fs`.
pub open spec fn find_fn(fs: Seq<SigM>, name: Seq<char>) -> Option<SigM>
    decreases fs.len(),
{
    if fs.len() == 0 {
        None
    } else if fs.last().name == name {
        Some(fs.last())
    } else {
        find_fn(fs.drop_last(), name)
    }
}

/// The latest type named `name` among `ts`.
pub open spec fn find_type(ts: Seq<(Seq<char>, TypeM)>, name: Seq<char>) -> Option<TypeM>
    decreases ts.len(),
{
    if ts.len() == 0 {
        None
    } else if ts.last().0 == name {
        Some(ts.last().1)
    } else {
        find_type(ts.drop_last(), name)
    }
}

/// The variable `name`: its type and mutability, searched from the
/// innermost scope out.
pub open spec fn lookup_var_m(s: Seq<ScopeM>, name: Seq<char>) -> Option<(TypeM, bool)>
    decreases s.len(),
{
    if s.len() == 0 {
        None
    } else {
        match find_var(s.last().vars, name) {
            Some(b) => Some(b),
            None => lookup_var_m(s.drop_last(), name),
        }
    }
}

/// The function `name`, searched from the innermost scope out.
pub open spec fn lookup_fn_m(s: Seq<ScopeM>, name: Seq<char>) -> Option<SigM>
    decreases s.len(),
{
    if s.len() == 0 {
        None
    } else {
        match find_fn(s.last().funcs, name) {
            Some(f) => Some(f),
            None => lookup_fn_m(s.drop_last(), name),
        }
    }
}

/// The named type `name`, searched from the innermost scope out.
pub open spec fn lookup_type_m(s: Seq<ScopeM>, name: Seq<char>) -> Option<TypeM>
    decreases s.len(),
{
    if s.len() == 0 {
        None
    } else {
        match find_type(s.last().types, name) {
            Some(t) => Some(t),
            None => lookup_type_m(s.drop_last(), name),
        }
    }
}

/// The innermost scope that is a function body.
pub open spec fn fn_scope_m(s: Seq<ScopeM>) -> Option<ScopeM>
    decreases s.len(),
{
    if s.len() == 0 {
        None
    } else if s.last().ret is Some {
        Some(s.last())
    } else {
        fn_scope_m(s.drop_last())
    }
}

/// The return type of the enclosing function.
pub open spec fn expected_ret_m(s: Seq<ScopeM>) -> Option<TypeM> {
    match fn_scope_m(s) {
        Some(f) => f.ret,
        None => None,
    }
}

/// The effects declared by the enclosing function.
pub open spec fn declared_effects_m(s: Seq<ScopeM>) -> Seq<EffectM> {
    match fn_scope_m(s) {
        Some(f) => f.effects,
        None => Seq::empty(),
    }
}

/// Whether the enclosing function is declared pure.
pub open spec fn in_pure_m(s: Seq<ScopeM>) -> bool {
    match fn_scope_m(s) {
        Some(f) => f.is_pure,
        None => false,
    }
}

/// `s` with `f` applied to its innermost scope.
pub open spec fn with_last(s: Seq<ScopeM>, last: ScopeM) -> Seq<ScopeM> {
    s.update(s.len() - 1, last)
}

/// `s` with variable `name` bound in the innermost scope.
pub open spec fn define_var_m(s: Seq<ScopeM>, name: Seq<char>, ty: TypeM, mutable: bool) -> Seq<ScopeM> {
    with_last(s, ScopeM { vars: s.last().vars.push((name, ty, mutable)), ..s.last() })
}

/// `s` with function `sig` defined in the innermost scope.
pub open spec fn define_fn_m(s: Seq<ScopeM>, sig: SigM) -> Seq<ScopeM> {
    with_last(s, ScopeM { funcs: s.last().funcs.push(sig), ..s.last() })
}

/// `s` with type `name` defined in the innermost scope.
pub open spec fn define_type_m(s: Seq<ScopeM>, name: Seq<char>, ty: TypeM) -> Seq<ScopeM> {
    with_last(s, ScopeM { types: s.last().types.push((name, ty)), ..s.last() })
}

/// `s` without its innermost scope, unless that is the only one.
pub open spec fn pop_m(s: Seq<ScopeM>) -> Seq<ScopeM> {
    if s.len() > 1 {
        s.drop_last()
    } else {
        s
    }
}

/// The type that a type annotation denotes in scopes `s`: the primitive
/// names, `list[T]` and `dict[K, V]` are built in; another name is the type
/// defined under it, or stays a name.
pub open spec fn resolve_m(s: Seq<ScopeM>, te: TypeExpr) -> TypeM
    decreases te,
{
    match te {
        TypeExpr::Named(name) => {
            if name@ == "int"@ {
                TypeM::Int
            } else if name@ == "float"@ {
                TypeM::Float
            } else if name@ == "bool"@ {
                TypeM::Bool
            } else if name@ == "str"@ {
                TypeM::Str
            } else if name@ == "char"@ {
                TypeM::Char
            } else if name@ == "none"@ {
                TypeM::NoneT
            } else {
                match lookup_type_m(s, name@) {
                    Some(t) => t,
                    None => TypeM::Named(name@),
                }
            }
        },
        TypeExpr::Generic(name, args) => {
            let rs = resolve_seq_m(s, args@);
            if name@ == "list"@ && rs.len() == 1 {
                TypeM::List(Box::new(rs[0]))
            } else if name@ == "dict"@ && rs.len() == 2 {
                TypeM::Dict(Box::new(rs[0]), Box::new(rs[1]))
            } else {
                TypeM::Named(name@)
            }
        },
        TypeExpr::Function(params, ret) => TypeM::Function(
            resolve_seq_m(s, params@),
            Box::new(resolve_m(s, *ret)),
            Seq::empty(),
        ),
        TypeExpr::Optional(inner) => TypeM::Optional(Box::new(resolve_m(s, *inner))),
        TypeExpr::Result(ok, err) => TypeM::Result(
            Box::new(resolve_m(s, *ok)),
            Box::new(resolve_m(s, *err)),
        ),
        TypeExpr::Tuple(es) => TypeM::Tuple(resolve_seq_m(s, es@)),
    }
}

/// The types that annotations `es` denote, in order.
pub open spec fn resolve_seq_m(s: Seq<ScopeM>, es: Seq<TypeExpr>) -> Seq<TypeM>
    decreases es,
{
    if es.len() == 0 {
        Seq::empty()
    } else {
        resolve_seq_m(s, es.drop_last()).push(resolve_m(s, es.last()))
    }
}

proof fn lemma_resolve_seq_len(s: Seq<ScopeM>, es: Seq<TypeExpr>)
    ensures
        resolve_seq_m(s, es).len() == es.len(),
        forall|i: int| 0 <= i < es.len() ==> #[trigger] resolve_seq_m(s, es)[i] == resolve_m(s, es[i]),
    decreases es.len(),
{
    if es.len() > 0 {
        lemma_resolve_seq_len(s, es.drop_last());
        assert forall|i: int| 0 <= i < es.len() implies #[trigger] resolve_seq_m(s, es)[i] == resolve_m(
            s,
            es[i],
        ) by {
            if i < es.len() - 1 {
                assert(es.drop_last()[i] == es[i]);
            }
        }
    }
}

/// Applies `bump` `k` times.
pub open spec fn bumps(n: TypeVarId, k: nat) -> TypeVarId
    decreases k,
{
    if k == 0 {
        n
    } else {
        bump(bumps(n, (k - 1) as nat))
    }
}

/// The counter after one fresh type variable is drawn from `n`.
pub open spec fn bump(n: TypeVarId) -> TypeVarId {
    if n == u64::MAX {
        0
    } else {
        (n + 1) as u64
    }
}

// ── Built-ins ───────────────────────────────────────────────

/// A built-in signature: public, with the given parameters, result, effects
/// and purity.
pub open spec fn builtin_sig(
    name: Seq<char>,
    params: Seq<(Seq<char>, TypeM)>,
    ret: TypeM,
    effects: Seq<EffectM>,
    is_pure: bool,
) -> SigM {
    SigM { name, params, ret, effects, is_pure, is_pub: true }
}

/// A function type without effects.
pub open spec fn fn_type_m(params: Seq<TypeM>, ret: TypeM) -> TypeM {
    TypeM::Function(params, Box::new(ret), Seq::empty())
}

/// The global scope of a fresh environment whose type variables are drawn
/// from `n` on: the primitive types and the built-in functions `print`,
/// `len`, `range`, `str`, `filter`, `map`, `sort` and `sum`.
pub open spec fn builtin_scope(n: TypeVarId) -> ScopeM {
    let v = |k: nat| TypeM::Var(bumps(n, k));
    ScopeM {
        types: seq![
            ("int"@, TypeM::Int),
            ("float"@, TypeM::Float),
            ("bool"@, TypeM::Bool),
            ("str"@, TypeM::Str),
            ("char"@, TypeM::Char),
            ("none"@, TypeM::NoneT),
        ],
        funcs: seq![
            builtin_sig("print"@, seq![("value"@, TypeM::Str)], TypeM::NoneT, seq![EffectM::IO], false),
            builtin_sig("len"@, seq![("collection"@, v(0))], TypeM::Int, seq![], true),
            builtin_sig("range"@, seq![("n"@, TypeM::Int)], TypeM::List(Box::new(TypeM::Int)), seq![], true),
            builtin_sig("str"@, seq![("value"@, v(1))], TypeM::Str, seq![], true),
            builtin_sig("filter"@, seq![("predicate"@, fn_type_m(seq![v(2)], TypeM::Bool))], v(3), seq![], true),
            builtin_sig("map"@, seq![("transform"@, fn_type_m(seq![v(4)], v(5)))], v(6), seq![], true),
            builtin_sig("sort"@, seq![], v(7), seq![], true),
            builtin_sig("sum"@, seq![], TypeM::Int, seq![], true),
        ],
        ..empty_scope()
    }
}

// ── Laws ────────────────────────────────────────────────────

/// A variable reads back as it was last defined; other names read as before.
pub proof fn lemma_var_after_define(s: Seq<ScopeM>, name: Seq<char>, ty: TypeM, mutable: bool, other: Seq<char>)
    requires
        s.len() >= 1,
    ensures
        lookup_var_m(define_var_m(s, name, ty, mutable), name) == Some((ty, mutable)),
        other != name ==> lookup_var_m(define_var_m(s, name, ty, mutable), other) == lookup_var_m(s, other),
{
    let d = define_var_m(s, name, ty, mutable);
    assert(d.last().vars.drop_last() =~= s.last().vars);
    assert(d.drop_last() =~= s.drop_last());
}

/// A function reads back as it was last defined; other names read as before.
pub proof fn lemma_fn_after_define(s: Seq<ScopeM>, sig: SigM, other: Seq<char>)
    requires
        s.len() >= 1,
    ensures
        lookup_fn_m(define_fn_m(s, sig), sig.name) == Some(sig),
        other != sig.name ==> lookup_fn_m(define_fn_m(s, sig), other) == lookup_fn_m(s, other),
{
    let d = define_fn_m(s, sig);
    assert(d.last().funcs.drop_last() =~= s.last().funcs);
    assert(d.drop_last() =~= s.drop_last());
}

/// A named type reads back as it was last defined; other names read as
/// before.
pub proof fn lemma_type_after_define(s: Seq<ScopeM>, name: Seq<char>, ty: TypeM, other: Seq<char>)
    requires
        s.len() >= 1,
    ensures
        lookup_type_m(define_type_m(s, name, ty), name) == Some(ty),
        other != name ==> lookup_type_m(define_type_m(s, name, ty), other) == lookup_type_m(s, other),
{
    let d = define_type_m(s, name, ty);
    assert(d.last().types.drop_last() =~= s.last().types);
    assert(d.drop_last() =~= s.drop_last());
}

/// Leaving a scope that was entered restores every lookup: what was
/// defined inside it is forgotten.
pub proof fn lemma_scope_round_trip(s: Seq<ScopeM>, inner: ScopeM, name: Seq<char>)
    requires
        s.len() >= 1,
    ensures
        pop_m(s.push(inner)) == s,
        lookup_var_m(pop_m(s.push(inner)), name) == lookup_var_m(s, name),
        lookup_fn_m(pop_m(s.push(inner)), name) == lookup_fn_m(s, name),
        lookup_type_m(pop_m(s.push(inner)), name) == lookup_type_m(s, name),
{
    assert(s.push(inner).drop_last() =~= s);
}

/// A variable defined in an inner scope shadows outer definitions of it.
pub proof fn lemma_inner_shadows(s: Seq<ScopeM>, name: Seq<char>, ty: TypeM, mutable: bool)
    requires
        s.len() >= 1,
    ensures
        lookup_var_m(define_var_m(s.push(empty_scope()), name, ty, mutable), name) == Some((ty, mutable)),
{
    lemma_var_after_define(s.push(empty_scope()), name, ty, mutable, name);
}

/// The global scope is never left.
pub proof fn lemma_global_stays(s: Seq<ScopeM>)
    requires
        s.len() == 1,
    ensures
        pop_m(s) == s,
{
}

// ── Implementation ──────────────────────────────────────────

/// A scope in the type environment.
#[derive(Debug)]
struct Scope {
    /// Variable name → (type, is_mutable), latest last
    variables: Vec<(String, (Type, bool))>,
    /// Function signatures, latest last
    functions: Vec<FunctionSig>,
    /// Type name → type definition, latest last
    types: Vec<(String, Type)>,
    /// The return type, when this scope is a function body
    return_type: Option<Type>,
    /// Effects declared for the current function
    declared_effects: Vec<Effect>,
    /// Whether the current function is pure
    is_pure: bool,
}

impl View for Scope {
    type V = ScopeM;

    closed spec fn view(&self) -> ScopeM {
        ScopeM {
            vars: Seq::new(
                self.variables@.len(),
                |i: int| (self.variables@[i].0@, self.variables@[i].1.0@, self.variables@[i].1.1),
            ),
            funcs: Seq::new(self.functions@.len(), |i: int| self.functions@[i]@),
            types: fields_view(self.types@),
            ret: match self.return_type {
                Some(t) => Some(t@),
                None => None,
            },
            effects: effects_view(self.declared_effects@),
            is_pure: self.is_pure,
        }
    }
}

impl Scope {
    fn new() -> (r: Scope)
        ensures
            r@ == empty_scope(),
    {
        let r = Scope {
            variables: Vec::new(),
            functions: Vec::new(),
            types: Vec::new(),
            return_type: None,
            declared_effects: Vec::new(),
            is_pure: false,
        };
        assert(r@.vars =~= Seq::<(Seq<char>, TypeM, bool)>::empty());
        assert(r@.funcs =~= Seq::<SigM>::empty());
        assert(r@.types =~= Seq::<(Seq<char>, TypeM)>::empty());
        assert(r@.effects =~= Seq::<EffectM>::empty());
        r
    }
}

/// The type environment tracks all bindings across nested scopes.
#[derive(Debug)]
pub struct TypeEnv {
    scopes: Vec<Scope>,
}


impl View for TypeEnv {
    type V = Seq<ScopeM>;

    closed spec fn view(&self) -> Seq<ScopeM> {
        Seq::new(self.scopes@.len(), |i: int| self.scopes@[i]@)
    }
}

impl TypeEnv {
    /// Create a new environment with built-in types pre-loaded; the type
    /// variables of the built-in signatures are drawn from the counter.
    pub fn new(next: &mut TypeVarId) -> (r: Self)
        ensures
            r@ == seq![builtin_scope(*old(next))],
            *final(next) == bumps(*old(next), 8),
    {
        let mut env = TypeEnv { scopes: vec![Scope::new()] };
        assert(env@ =~= seq![empty_scope()]);
        env.register_builtins(next);
        env
    }

    /// Register built-in types and functions.
    fn register_builtins(&mut self, next: &mut TypeVarId)
        requires
            old(self)@ == seq![empty_scope()],
        ensures
            final(self)@ == seq![builtin_scope(*old(next))],
            *final(next) == bumps(*old(next), 8),
    {
        let ghost n = *next;
        proof {
            reveal_strlit("int");
            reveal_strlit("float");
            reveal_strlit("bool");
            reveal_strlit("str");
            reveal_strlit("char");
            reveal_strlit("none");
            reveal_strlit("print");
            reveal_strlit("value");
            reveal_strlit("len");
            reveal_strlit("collection");
            reveal_strlit("range");
            reveal_strlit("n");
            reveal_strlit("filter");
            reveal_strlit("predicate");
            reveal_strlit("map");
            reveal_strlit("transform");
            reveal_strlit("sort");
            reveal_strlit("sum");
        }
        // Built-in types
        self.define_type("int", Type::Int);
        self.define_type("float", Type::Float);
        self.define_type("bool", Type::Bool);
        self.define_type("str", Type::Str);
        self.define_type("char", Type::Char);
        self.define_type("none", Type::NoneType);

        // Built-in functions
        self.define_function(FunctionSig {
            name: "print".to_string(),
            params: vec![("value".to_string(), Type::Str)],
            return_type: Type::NoneType,
            effects: vec![Effect::IO],
            is_pure: false,
            is_pub: true,
        });
        let v0 = Type::fresh_var(next);
        self.define_function(FunctionSig {
            name: "len".to_string(),
            params: vec![("collection".to_string(), v0)],
            return_type: Type::Int,
            effects: vec![],
            is_pure: true,
            is_pub: true,
        });
        self.define_function(FunctionSig {
            name: "range".to_string(),
            params: vec![("n".to_string(), Type::Int)],
            return_type: Type::List(Box::new(Type::Int)),
            effects: vec![],
            is_pure: true,
            is_pub: true,
        });
        let v1 = Type::fresh_var(next);
        self.define_function(FunctionSig {
            name: "str".to_string(),
            params: vec![("value".to_string(), v1)],
            return_type: Type::Str,
            effects: vec![],
            is_pure: true,
            is_pub: true,
        });
        // Collection functions used in pipes
        let v2 = Type::fresh_var(next);
        let v3 = Type::fresh_var(next);
        let ghost t2 = v2@;
        let no_effects: Vec<Effect> = Vec::new();
        assert(effects_view(no_effects@) =~= Seq::<EffectM>::empty());
        let mut ps2: Vec<Type> = Vec::new();
        ps2.push(v2);
        assert(types_view(ps2@) =~= seq![t2]);
        let pred_ty = Type::Function { params: ps2, return_type: Box::new(Type::Bool), effects: no_effects };

        assert(pred_ty@ == fn_type_m(seq![t2], TypeM::Bool));
        self.define_function(FunctionSig {
            name: "filter".to_string(),
            params: vec![("predicate".to_string(), pred_ty)],
            return_type: v3,
            effects: vec![],
            is_pure: true,
            is_pub: true,
        });
        let v4 = Type::fresh_var(next);
        let v5 = Type::fresh_var(next);
        let v6 = Type::fresh_var(next);
        let ghost t4 = v4@;
        let ghost t5 = v5@;
        let no_effects: Vec<Effect> = Vec::new();
        assert(effects_view(no_effects@) =~= Seq::<EffectM>::empty());
        let mut ps4: Vec<Type> = Vec::new();
        ps4.push(v4);
        assert(types_view(ps4@) =~= seq![t4]);
        let transform_ty = Type::Function { params: ps4, return_type: Box::new(v5), effects: no_effects };

        assert(transform_ty@ == fn_type_m(seq![t4], t5));
        self.define_function(FunctionSig {
            name: "map".to_string(),
            params: vec![("transform".to_string(), transform_ty)],
            return_type: v6,
            effects: vec![],
            is_pure: true,
            is_pub: true,
        });
        let v7 = Type::fresh_var(next);
        self.define_function(FunctionSig {
            name: "sort".to_string(),
            params: vec![],
            return_type: v7,
            effects: vec![],
            is_pure: true,
            is_pub: true,
        });
        self.define_function(FunctionSig {
            name: "sum".to_string(),
            params: vec![],
            return_type: Type::Int,
            effects: vec![],
            is_pure: true,
            is_pub: true,
        });
        proof {
            reveal_with_fuel(bumps, 9);
            let b = builtin_scope(n);
            let f = self@[0];
            assert(f.types =~= b.types);
            assert(f.funcs[0].params =~= b.funcs[0].params);
            assert(f.funcs[0].effects =~= b.funcs[0].effects);
            assert(f.funcs[1].params =~= b.funcs[1].params);
            assert(f.funcs[2].params =~= b.funcs[2].params);
            assert(types_view(seq![Type::Int]) =~= seq![TypeM::Int]);
            assert(f.funcs[3].params =~= b.funcs[3].params);
            assert(effects_view(Seq::<Effect>::empty()) =~= Seq::<EffectM>::empty());
            assert(f.funcs[4].params =~= b.funcs[4].params);
            assert(f.funcs[5].params =~= b.funcs[5].params);
            assert(f.funcs[6].params =~= b.funcs[6].params);
            assert(f.funcs[7].params =~= b.funcs[7].params);
            assert(f.funcs =~= b.funcs);
            assert(f.vars =~= b.vars);
            assert(f.effects =~= b.effects);
            assert(self@ =~= seq![b]);
        }
    }

    // ── Scope management ─────────────────────────────────────

    /// Enter a new scope.
    pub fn push_scope(&mut self)
        ensures
            final(self)@ == old(self)@.push(empty_scope()),
    {
        self.scopes.push(Scope::new());
        assert(final(self)@ =~= old(self)@.push(empty_scope()));
    }

    /// Enter a function scope with a return type and effects.
    pub fn push_function_scope(&mut self, return_type: Type, effects: Vec<Effect>, is_pure: bool)
        ensures
            final(self)@ == old(self)@.push(function_scope(return_type@, effects_view(effects@), is_pure)),
    {
        let mut scope = Scope::new();
        scope.return_type = Some(return_type);
        scope.declared_effects = effects;
        scope.is_pure = is_pure;
        assert(scope@.vars =~= empty_scope().vars);
        assert(scope@.funcs =~= empty_scope().funcs);
        assert(scope@.types =~= empty_scope().types);
        self.scopes.push(scope);
        assert(final(self)@ =~= old(self)@.push(function_scope(return_type@, effects_view(effects@), is_pure)));
    }

    /// Leave the current scope; the global scope is never left.
    pub fn pop_scope(&mut self)
        ensures
            final(self)@ == pop_m(old(self)@),
    {
        if self.scopes.len() > 1 {
            self.scopes.pop();
        }
        assert(final(self)@ =~= pop_m(old(self)@));
    }

    // ── Variable operations ──────────────────────────────────

    /// Define a variable in the current scope.
    pub fn define_variable(&mut self, name: &str, ty: Type, mutable: bool)
        requires
            old(self)@.len() >= 1,
        ensures
            final(self)@ == define_var_m(old(self)@, name@, ty@, mutable),
    {
        let mut scope = self.scopes.pop().unwrap();
        let ghost before = scope@;
        scope.variables.push((name.to_string(), (ty, mutable)));
        assert(scope@.vars =~= before.vars.push((name@, ty@, mutable)));
        assert(scope@.funcs =~= before.funcs);
        self.scopes.push(scope);
        assert(final(self)@ =~= define_var_m(old(self)@, name@, ty@, mutable));
    }

    /// Look up a variable, searching from innermost to outermost scope.
    pub fn lookup_variable(&self, name: &str) -> (r: Option<&(Type, bool)>)
        ensures
            match r {
                Some(b) => lookup_var_m(self@, name@) == Some((b.0@, b.1)),
                None => lookup_var_m(self@, name@) is None,
            },
    {
        let key = name.to_string();
        let ghost m = self@;
        let mut i: usize = self.scopes.len();
        assert(m.take(m.len() as int) =~= m);
        while i > 0
            invariant
                m == self@,
                i <= m.len(),
                m.len() == self.scopes@.len(),
                lookup_var_m(m, name@) == lookup_var_m(m.take(i as int), name@),
                key@ == name@,
            decreases i,
        {
            let scope = &self.scopes[i - 1];
            let ghost vs = m[i - 1].vars;
            assert(m[i - 1] == scope@);
            assert(m.take(i as int).last() == m[i - 1]);
            assert(m.take(i as int).drop_last() =~= m.take(i - 1));
            let mut j: usize = scope.variables.len();
            assert(vs.take(vs.len() as int) =~= vs);
            while j > 0
                invariant
                    1 <= i <= m.len(),
                    m == self@,
                    vs == m[i - 1].vars,
                    vs == scope@.vars,
                    vs.len() == scope.variables@.len(),
                    j <= vs.len(),
                    find_var(vs, name@) == find_var(vs.take(j as int), name@),
                    lookup_var_m(m, name@) == lookup_var_m(m.take(i as int), name@),
                    m.take(i as int).last() == m[i - 1],
                    m.take(i as int).drop_last() == m.take(i - 1),
                    key@ == name@,
                decreases j,
            {
                assert(vs.take(j as int).last() == vs[j - 1]);
                assert(vs.take(j as int).drop_last() =~= vs.take(j - 1));
                if scope.variables[j - 1].0 == key {
                    return Some(&scope.variables[j - 1].1);
                }
                j = j - 1;
            }
            assert(vs.take(0) =~= Seq::<(Seq<char>, TypeM, bool)>::empty());
            i = i - 1;
        }
        None
    }

    /// Check if a variable is mutable.
    pub fn is_mutable(&self, name: &str) -> (r: Option<bool>)
        ensures
            match lookup_var_m(self@, name@) {
                Some(b) => r == Some(b.1),
                None => r is None,
            },
    {
        match self.lookup_variable(name) {
            Some(b) => Some(b.1),
            None => None,
        }
    }

    // ── Function operations ──────────────────────────────────

    /// Define a function in the current scope.
    pub fn define_function(&mut self, sig: FunctionSig)
        requires
            old(self)@.len() >= 1,
        ensures
            final(self)@ == define_fn_m(old(self)@, sig@),
    {
        let mut scope = self.scopes.pop().unwrap();
        let ghost before = scope@;
        let ghost s = sig@;
        scope.functions.push(sig);
        assert(scope@.funcs =~= before.funcs.push(s));
        assert(scope@.vars =~= before.vars);
        self.scopes.push(scope);
        assert(final(self)@ =~= define_fn_m(old(self)@, s));
    }

    /// Look up a function signature.
    pub fn lookup_function(&self, name: &str) -> (r: Option<&FunctionSig>)
        ensures
            match r {
                Some(f) => lookup_fn_m(self@, name@) == Some(f@),
                None => lookup_fn_m(self@, name@) is None,
            },
    {
        let key = name.to_string();
        let ghost m = self@;
        let mut i: usize = self.scopes.len();
        assert(m.take(m.len() as int) =~= m);
        while i > 0
            invariant
                m == self@,
                i <= m.len(),
                m.len() == self.scopes@.len(),
                lookup_fn_m(m, name@) == lookup_fn_m(m.take(i as int), name@),
                key@ == name@,
            decreases i,
        {
            let scope = &self.scopes[i - 1];
            let ghost fs = m[i - 1].funcs;
            assert(m[i - 1] == scope@);
            assert(m.take(i as int).last() == m[i - 1]);
            assert(m.take(i as int).drop_last() =~= m.take(i - 1));
            let mut j: usize = scope.functions.len();
            assert(fs.take(fs.len() as int) =~= fs);
            while j > 0
                invariant
                    1 <= i <= m.len(),
                    m == self@,
                    fs == m[i - 1].funcs,
                    fs == scope@.funcs,
                    fs.len() == scope.functions@.len(),
                    j <= fs.len(),
                    find_fn(fs, name@) == find_fn(fs.take(j as int), name@),
                    lookup_fn_m(m, name@) == lookup_fn_m(m.take(i as int), name@),
                    m.take(i as int).last() == m[i - 1],
                    m.take(i as int).drop_last() == m.take(i - 1),
                    key@ == name@,
                decreases j,
            {
                assert(fs.take(j as int).last() == fs[j - 1]);
                assert(fs.take(j as int).drop_last() =~= fs.take(j - 1));
                if scope.functions[j - 1].name == key {
                    return Some(&scope.functions[j - 1]);
                }
                j = j - 1;
            }
            assert(fs.take(0) =~= Seq::<SigM>::empty());
            i = i - 1;
        }
        None
    }

    // ── Type operations ──────────────────────────────────────

    /// Define a named type.
    pub fn define_type(&mut self, name: &str, ty: Type)
        requires
            old(self)@.len() >= 1,
        ensures
            final(self)@ == define_type_m(old(self)@, name@, ty@),
    {
        let mut scope = self.scopes.pop().unwrap();
        let ghost before = scope@;
        let ghost tv = ty@;
        let ghost old_types = scope.types@;
        scope.types.push((name.to_string(), ty));
        assert(scope.types@.drop_last() =~= old_types);
        assert(scope@.types =~= before.types.push((name@, tv)));
        assert(scope@.vars =~= before.vars);
        assert(scope@.funcs =~= before.funcs);
        self.scopes.push(scope);
        assert(final(self)@ =~= define_type_m(old(self)@, name@, tv));
    }

    /// Look up a named type.
    pub fn lookup_type(&self, name: &str) -> (r: Option<&Type>)
        ensures
            match r {
                Some(t) => lookup_type_m(self@, name@) == Some(t@),
                None => lookup_type_m(self@, name@) is None,
            },
    {
        let key = name.to_string();
        let ghost m = self@;
        let mut i: usize = self.scopes.len();
        assert(m.take(m.len() as int) =~= m);
        while i > 0
            invariant
                m == self@,
                i <= m.len(),
                m.len() == self.scopes@.len(),
                lookup_type_m(m, name@) == lookup_type_m(m.take(i as int), name@),
                key@ == name@,
            decreases i,
        {
            let scope = &self.scopes[i - 1];
            let ghost ts = m[i - 1].types;
            assert(m[i - 1] == scope@);
            assert(m.take(i as int).last() == m[i - 1]);
            assert(m.take(i as int).drop_last() =~= m.take(i - 1));
            let mut j: usize = scope.types.len();
            assert(ts.take(ts.len() as int) =~= ts);
            while j > 0
                invariant
                    1 <= i <= m.len(),
                    m == self@,
                    ts == m[i - 1].types,
                    ts == fields_view(scope.types@),
                    ts.len() == scope.types@.len(),
                    j <= ts.len(),
                    find_type(ts, name@) == find_type(ts.take(j as int), name@),
                    lookup_type_m(m, name@) == lookup_type_m(m.take(i as int), name@),
                    m.take(i as int).last() == m[i - 1],
                    m.take(i as int).drop_last() == m.take(i - 1),
                    key@ == name@,
                decreases j,
            {
                assert(ts.take(j as int).last() == ts[j - 1]);
                assert(ts.take(j as int).drop_last() =~= ts.take(j - 1));
                if scope.types[j - 1].0 == key {
                    return Some(&scope.types[j - 1].1);
                }
                j = j - 1;
            }
            assert(ts.take(0) =~= Seq::<(Seq<char>, TypeM)>::empty());
            i = i - 1;
        }
        None
    }

    // ── Function context queries ─────────────────────────────

    /// The index of the innermost function scope among the first `i`.
    fn function_scope_index(&self) -> (r: Option<usize>)
        ensures
            match r {
                Some(k) => k < self@.len() && fn_scope_m(self@) == Some(self@[k as int])
                    && self.scopes@[k as int].return_type is Some,
                None => fn_scope_m(self@) is None,
            },
    {
        let ghost m = self@;
        let mut i: usize = self.scopes.len();
        assert(m.take(m.len() as int) =~= m);
        while i > 0
            invariant
                m == self@,
                i <= m.len(),
                m.len() == self.scopes@.len(),
                fn_scope_m(m) == fn_scope_m(m.take(i as int)),
            decreases i,
        {
            assert(m[i - 1] == self.scopes@[i - 1]@);
            assert(m.take(i as int).last() == m[i - 1]);
            assert(m.take(i as int).drop_last() =~= m.take(i - 1));
            if self.scopes[i - 1].return_type.is_some() {
                return Some(i - 1);
            }
            i = i - 1;
        }
        assert(m.take(0) =~= Seq::<ScopeM>::empty());
        None
    }

    /// Get the expected return type of the enclosing function.
    pub fn expected_return_type(&self) -> (r: Option<&Type>)
        ensures
            match r {
                Some(t) => expected_ret_m(self@) == Some(t@),
                None => expected_ret_m(self@) is None,
            },
    {
        match self.function_scope_index() {
            Some(k) => {
                assert(self@[k as int] == self.scopes@[k as int]@);
                self.scopes[k].return_type.as_ref()
            },
            None => None,
        }
    }

    /// Get the declared effects of the enclosing function (none outside
    /// any function).
    pub fn declared_effects(&self) -> (r: Vec<Effect>)
        ensures
            effects_view(r@) == declared_effects_m(self@),
    {
        match self.function_scope_index() {
            Some(k) => {
                assert(self@[k as int] == self.scopes@[k as int]@);
                crate::infer::types::duplicate_effects(&self.scopes[k].declared_effects)
            },
            None => {
                let r: Vec<Effect> = Vec::new();
                assert(effects_view(r@) =~= Seq::<EffectM>::empty());
                r
            },
        }
    }

    /// Check if the enclosing function is declared pure.
    pub fn is_in_pure_function(&self) -> (r: bool)
        ensures
            r == in_pure_m(self@),
    {
        match self.function_scope_index() {
            Some(k) => {
                assert(self@[k as int] == self.scopes@[k as int]@);
                self.scopes[k].is_pure
            },
            None => false,
        }
    }

    /// Resolve a type annotation from the syntax tree into a type.
    pub fn resolve_type_expr(&self, expr: &TypeExpr) -> (r: Type)
        ensures
            r@ == resolve_m(self@, *expr),
        decreases expr,
    {
        match expr {
            TypeExpr::Named(name) => {
                proof {
                    reveal_strlit("int");
                    reveal_strlit("float");
                    reveal_strlit("bool");
                    reveal_strlit("str");
                    reveal_strlit("char");
                    reveal_strlit("none");
                }
                if spells(name, "int") {
                    Type::Int
                } else if spells(name, "float") {
                    Type::Float
                } else if spells(name, "bool") {
                    Type::Bool
                } else if spells(name, "str") {
                    Type::Str
                } else if spells(name, "char") {
                    Type::Char
                } else if spells(name, "none") {
                    Type::NoneType
                } else {
                    match self.lookup_type(name.as_str()) {
                        Some(ty) => ty.duplicate(),
                        None => Type::Named(name.clone()),
                    }
                }
            },
            TypeExpr::Generic(name, args) => {
                let mut resolved = self.resolve_all(args);
                proof {
                    reveal_strlit("list");
                    reveal_strlit("dict");
                    lemma_resolve_seq_len(self@, args@);
                }
                if spells(name, "list") && resolved.len() == 1 {
                    let first = resolved.pop().unwrap();
                    Type::List(Box::new(first))
                } else if spells(name, "dict") && resolved.len() == 2 {
                    let second = resolved.pop().unwrap();
                    let first = resolved.pop().unwrap();
                    Type::Dict(Box::new(first), Box::new(second))
                } else {
                    Type::Named(name.clone())
                }
            },
            TypeExpr::Function(params, ret) => {
                let param_types = self.resolve_all(params);
                let return_type = self.resolve_type_expr(ret);
                let effects: Vec<Effect> = Vec::new();
                assert(effects_view(effects@) =~= Seq::<EffectM>::empty());
                Type::Function { params: param_types, return_type: Box::new(return_type), effects }
            },
            TypeExpr::Optional(inner) => Type::Optional(Box::new(self.resolve_type_expr(inner))),
            TypeExpr::Result(ok, err) => Type::Result(
                Box::new(self.resolve_type_expr(ok)),
                Box::new(self.resolve_type_expr(err)),
            ),
            TypeExpr::Tuple(elements) => Type::Tuple(self.resolve_all(elements)),
        }
    }

    /// Resolve each of `exprs`, in order.
    fn resolve_all(&self, exprs: &Vec<TypeExpr>) -> (r: Vec<Type>)
        ensures
            types_view(r@) == resolve_seq_m(self@, exprs@),
        decreases exprs,
    {
        let mut r: Vec<Type> = Vec::new();
        let mut i: usize = 0;
        proof {
            lemma_resolve_seq_len(self@, exprs@);
        }
        while i < exprs.len()
            invariant
                i <= exprs@.len(),
                r@.len() == i,
                resolve_seq_m(self@, exprs@).len() == exprs@.len(),
                forall|j: int| 0 <= j < exprs@.len() ==> #[trigger] resolve_seq_m(self@, exprs@)[j] == resolve_m(self@, exprs@[j]),
                forall|j: int| 0 <= j < i ==> #[trigger] r@[j]@ == resolve_m(self@, exprs@[j]),
            decreases exprs@.len() - i,
        {
            assert(decreases_to!(exprs => exprs@[i as int]));
            r.push(self.resolve_type_expr(&exprs[i]));
            i = i + 1;
        }
        assert(types_view(r@) =~= resolve_seq_m(self@, exprs@));
        r
    }
}

impl Default for TypeEnv {
    /// An environment whose built-in type variables are numbered from zero.
    fn default() -> (r: Self)
        ensures
            r@ == seq![builtin_scope(0)],
    {
        let mut next: TypeVarId = 0;
        Self::new(&mut next)
    }
}

} // verus!
