//! A stack of lexical scopes mapping names to typed bindings.
use vstd::prelude::*;
use crate::check::types::{Type, TyM, lemma_tys_view, spells};

verus! {

broadcast use vstd::std_specs::vec::group_vec_axioms;

/// A binding in the symbol table.
#[derive(Debug)]
pub struct Binding {
    pub ty: Type,
    /// Whether the binding was declared `var` (mutable) or `let` (immutable).
    pub mutable: bool,
}

/// A binding as a value: its type and whether it is mutable.
pub type BindingM = (TyM, bool);

impl View for Binding {
    type V = BindingM;

    open spec fn view(&self) -> BindingM {
        (self.ty@, self.mutable)
    }
}

impl Binding {
    /// A `let` binding of type `ty`.
    pub fn immutable(ty: Type) -> (b: Self)
        ensures
            b@ == (ty@, false),
    {
        Binding { ty, mutable: false }
    }

    /// A `var` binding of type `ty`.
    pub fn mutable(ty: Type) -> (b: Self)
        ensures
            b@ == (ty@, true),
    {
        Binding { ty, mutable: true }
    }
}

/// A lexical scope: names with their bindings.
pub type ScopeM = Seq<(Seq<char>, BindingM)>;

/// The binding of `name` in one scope.
pub open spec fn find_in(scope: ScopeM, name: Seq<char>) -> Option<BindingM>
    decreases scope.len(),
{
    if scope.len() == 0 {
        None
    } else if scope.last().0 == name {
        Some(scope.last().1)
    } else {
        find_in(scope.drop_last(), name)
    }
}

/// The binding of `name`, searching from the innermost scope outward.
pub open spec fn lookup_m(scopes: Seq<ScopeM>, name: Seq<char>) -> Option<BindingM>
    decreases scopes.len(),
{
    if scopes.len() == 0 {
        None
    } else {
        match find_in(scopes.last(), name) {
            Some(b) => Some(b),
            None => lookup_m(scopes.drop_last(), name),
        }
    }
}

/// No name occurs twice in a scope.
pub open spec fn names_unique(scope: ScopeM) -> bool {
    forall|i: int, j: int| 0 <= i < j < scope.len() ==> #[trigger] scope[i].0 != #[trigger] scope[j].0
}

/// `new` is `old` with `name` bound to `b`: the binding replaces an earlier
/// one of the same name, and every other name keeps its binding.
pub open spec fn rebinds(new: ScopeM, old: ScopeM, name: Seq<char>, b: BindingM) -> bool {
    &&& names_unique(new)
    &&& forall|n: Seq<char>| #[trigger] find_in(new, n) == if n == name {
        Some(b)
    } else {
        find_in(old, n)
    }
}

/// `scope` with `name` bound to `b`: in place of its binding of the name, if
/// it has one, else added at the end.
pub open spec fn scope_set(scope: ScopeM, name: Seq<char>, b: BindingM) -> ScopeM {
    if exists|k: int| 0 <= k < scope.len() && #[trigger] scope[k].0 == name {
        scope.update(choose|k: int| 0 <= k < scope.len() && #[trigger] scope[k].0 == name, (name, b))
    } else {
        scope.push((name, b))
    }
}

/// The scopes with `name` bound to `b` in the innermost one.
pub open spec fn define_scopes(scopes: Seq<ScopeM>, name: Seq<char>, b: BindingM) -> Seq<ScopeM> {
    scopes.update(scopes.len() - 1, scope_set(scopes.last(), name, b))
}

/// The view of one scope.
pub open spec fn scope_view(v: Seq<(String, Binding)>) -> ScopeM {
    Seq::new(v.len(), |j: int| (v[j].0@, v[j].1@))
}

/// A stack of lexical scopes.
///
/// `push_scope` / `pop_scope` bracket a new block; `define_let` and
/// `define_var` add a name to the innermost scope; `lookup` searches from
/// innermost to outermost.
#[derive(Debug)]
pub struct Env {
    /// The scopes, outermost first; each binds a name at most once.
    pub scopes: Vec<Vec<(String, Binding)>>,
    /// Return type expected by the current function; `None` at the top level.
    pub current_return_ty: Option<Type>,
    /// Whether we are inside a loop (for `break`/`continue` checking).
    pub in_loop: bool,
}

/// Where `name` is bound in a scope without repeated names.
proof fn lemma_find_in_index(scope: ScopeM, name: Seq<char>)
    requires
        names_unique(scope),
    ensures
        find_in(scope, name) is None <==> forall|i: int| 0 <= i < scope.len() ==> #[trigger] scope[i].0 != name,
        forall|i: int| 0 <= i < scope.len() && #[trigger] scope[i].0 == name ==> find_in(scope, name) == Some(scope[i].1),
    decreases scope.len(),
{
    if scope.len() > 0 {
        let d = scope.drop_last();
        let l = scope.len() - 1;
        assert forall|i: int| 0 <= i < d.len() implies #[trigger] d[i] == scope[i] by {}
        assert forall|i: int, j: int| 0 <= i < j < d.len() implies #[trigger] d[i].0 != #[trigger] d[j].0 by {
            assert(d[i] == scope[i] && d[j] == scope[j]);
        }
        lemma_find_in_index(d, name);
        if scope[l].0 == name {
            assert(find_in(scope, name) == Some(scope[l].1));
            assert forall|i: int| 0 <= i < scope.len() && #[trigger] scope[i].0 == name implies find_in(scope, name) == Some(scope[i].1) by {
                if i < l {
                    assert(scope[i].0 != scope[l].0);
                }
            }
        } else {
            assert(find_in(scope, name) == find_in(d, name));
            if find_in(scope, name) is None {
                assert forall|i: int| 0 <= i < scope.len() implies #[trigger] scope[i].0 != name by {
                    if i < l {
                        assert(d[i].0 != name);
                    }
                }
            } else {
                let w = choose|i: int| 0 <= i < d.len() && #[trigger] d[i].0 == name;
                assert(scope[w].0 == name);
            }
            assert forall|i: int| 0 <= i < scope.len() && #[trigger] scope[i].0 == name implies find_in(scope, name) == Some(scope[i].1) by {
                assert(i < l);
                assert(d[i].0 == name);
            }
        }
    }
}

/// Bind `name` to `b` in `scope`, replacing an earlier binding of the name.
fn put(scope: &mut Vec<(String, Binding)>, name: String, b: Binding)
    requires
        names_unique(scope_view(old(scope)@)),
    ensures
        rebinds(scope_view(final(scope)@), scope_view(old(scope)@), name@, b@),
        scope_view(final(scope)@) == scope_set(scope_view(old(scope)@), name@, b@),
{
    let ghost old_v = scope_view(scope@);
    let ghost bm = b@;
    let ghost nm = name@;
    proof {
        lemma_find_in_index(old_v, nm);
    }
    let mut i: usize = 0;
    let mut found: Option<usize> = None;
    while i < scope.len()
        invariant_except_break
            found is None,
        invariant
            i <= scope@.len(),
            scope_view(scope@) == old_v,
            names_unique(old_v),
            nm == name@,
            forall|j: int| 0 <= j < i ==> #[trigger] scope@[j].0@ != nm,
        ensures
            match found {
                Some(k) => k < scope@.len() && scope@[k as int].0@ == nm,
                None => forall|j: int| 0 <= j < scope@.len() ==> #[trigger] scope@[j].0@ != nm,
            },
        decreases scope@.len() - i,
    {
        if scope[i].0 == name {
            found = Some(i);
            break;
        }
        i = i + 1;
    }
    match found {
        Some(k) => {
            scope.set(k, (name, b));
            proof {
                let k = k as int;
                let nv = scope_view(scope@);
                assert(nv =~= old_v.update(k, (nm, bm)));
                assert(old_v[k].0 == nm);
                let c = choose|c: int| 0 <= c < old_v.len() && #[trigger] old_v[c].0 == nm;
                assert(c == k) by {
                    if c != k {
                        if c < k {
                            assert(old_v[c].0 != old_v[k].0);
                        } else {
                            assert(old_v[k].0 != old_v[c].0);
                        }
                    }
                }
                assert forall|x: int, y: int| 0 <= x < y < nv.len() implies #[trigger] nv[x].0 != #[trigger] nv[y].0 by {
                    assert(old_v[x].0 != old_v[y].0);
                }
                assert forall|n: Seq<char>| #[trigger] find_in(nv, n) == if n == nm {
                    Some(bm)
                } else {
                    find_in(old_v, n)
                } by {
                    lemma_find_in_index(nv, n);
                    lemma_find_in_index(old_v, n);
                    assert(nv[k].0 == nm);
                    if n != nm {
                        if find_in(old_v, n) is None {
                            assert forall|x: int| 0 <= x < nv.len() implies #[trigger] nv[x].0 != n by {
                                if x != k {
                                    assert(nv[x] == old_v[x]);
                                }
                            }
                        } else {
                            let x = choose|x: int| 0 <= x < old_v.len() && #[trigger] old_v[x].0 == n;
                            assert(nv[x] == old_v[x]);
                        }
                    }
                }
            }
        },
        None => {
            scope.push((name, b));
            proof {
                let nv = scope_view(scope@);
                assert(nv =~= old_v.push((nm, bm)));
                assert(!exists|c: int| 0 <= c < old_v.len() && #[trigger] old_v[c].0 == nm) by {
                    assert forall|c: int| 0 <= c < old_v.len() implies #[trigger] old_v[c].0 != nm by {
                        assert(scope@[c].0@ != nm);
                    }
                }
                assert(nv.drop_last() =~= old_v);
                assert forall|x: int, y: int| 0 <= x < y < nv.len() implies #[trigger] nv[x].0 != #[trigger] nv[y].0 by {
                    if y < old_v.len() {
                        assert(old_v[x].0 != old_v[y].0);
                    } else {
                        assert(scope@[x].0@ != nm);
                    }
                }
            }
        },
    }
}

impl Env {
    /// The scopes, outermost first.
    pub open spec fn scopes_m(&self) -> Seq<ScopeM> {
        Seq::new(self.scopes@.len(), |i: int| scope_view(self.scopes@[i]@))
    }

    /// There is a global scope, and no scope binds a name twice.
    pub open spec fn wf(&self) -> bool {
        &&& self.scopes_m().len() >= 1
        &&& forall|i: int| 0 <= i < self.scopes_m().len() ==> names_unique(#[trigger] self.scopes_m()[i])
    }

    /// The binding that `lookup` finds for `name`.
    pub open spec fn binding_of(&self, name: Seq<char>) -> Option<BindingM> {
        lookup_m(self.scopes_m(), name)
    }

    /// Create an empty environment with just the global scope.
    pub fn new() -> (e: Self)
        ensures
            e.wf(),
            e.scopes_m() == seq![Seq::<(Seq<char>, BindingM)>::empty()],
            e.current_return_ty is None,
            !e.in_loop,
    {
        let global: Vec<(String, Binding)> = Vec::new();
        assert(scope_view(global@) =~= Seq::<(Seq<char>, BindingM)>::empty());
        let e = Env { scopes: vec![global], current_return_ty: None, in_loop: false };
        assert(e.scopes_m() =~= seq![Seq::<(Seq<char>, BindingM)>::empty()]);
        e
    }

    /// Push a new inner scope (e.g. entering a block or function body).
    pub fn push_scope(&mut self)
        requires
            old(self).wf(),
        ensures
            final(self).wf(),
            final(self).scopes_m() == old(self).scopes_m().push(Seq::empty()),
            final(self).current_return_ty == old(self).current_return_ty,
            final(self).in_loop == old(self).in_loop,
    {
        let fresh: Vec<(String, Binding)> = Vec::new();
        assert(scope_view(fresh@) =~= Seq::<(Seq<char>, BindingM)>::empty());
        self.scopes.push(fresh);
        assert(self.scopes_m() =~= old(self).scopes_m().push(Seq::empty()));
    }

    /// Pop the innermost scope; the global scope is never popped.
    pub fn pop_scope(&mut self)
        requires
            old(self).wf(),
            old(self).scopes_m().len() > 1,
        ensures
            final(self).wf(),
            final(self).scopes_m() == old(self).scopes_m().drop_last(),
            final(self).current_return_ty == old(self).current_return_ty,
            final(self).in_loop == old(self).in_loop,
    {
        self.scopes.pop();
        assert(self.scopes_m() =~= old(self).scopes_m().drop_last());
    }

    /// Bind `name` in the innermost scope.
    fn define(&mut self, name: String, b: Binding)
        requires
            old(self).wf(),
        ensures
            final(self).wf(),
            final(self).scopes_m().len() == old(self).scopes_m().len(),
            final(self).scopes_m().drop_last() == old(self).scopes_m().drop_last(),
            rebinds(final(self).scopes_m().last(), old(self).scopes_m().last(), name@, b@),
            final(self).scopes_m() == define_scopes(old(self).scopes_m(), name@, b@),
            final(self).current_return_ty == old(self).current_return_ty,
            final(self).in_loop == old(self).in_loop,
    {
        let ghost old_m = self.scopes_m();
        let mut scope = self.scopes.pop().unwrap();
        assert(names_unique(old_m[old_m.len() - 1]));
        put(&mut scope, name, b);
        self.scopes.push(scope);
        proof {
            let m = self.scopes_m();
            assert(m.drop_last() =~= old_m.drop_last());
            assert(m =~= define_scopes(old_m, name@, b@));
            assert forall|i: int| 0 <= i < m.len() implies names_unique(#[trigger] m[i]) by {
                if i < m.len() - 1 {
                    assert(m[i] == old_m[i]);
                }
            }
        }
    }

    /// Define a new immutable binding in the current scope.
    pub fn define_let(&mut self, name: String, ty: Type)
        requires
            old(self).wf(),
        ensures
            final(self).wf(),
            final(self).scopes_m().len() == old(self).scopes_m().len(),
            final(self).scopes_m().drop_last() == old(self).scopes_m().drop_last(),
            rebinds(final(self).scopes_m().last(), old(self).scopes_m().last(), name@, (ty@, false)),
            final(self).scopes_m() == define_scopes(old(self).scopes_m(), name@, (ty@, false)),
            final(self).current_return_ty == old(self).current_return_ty,
            final(self).in_loop == old(self).in_loop,
    {
        self.define(name, Binding::immutable(ty));
    }

    /// Define a new mutable binding in the current scope.
    pub fn define_var(&mut self, name: String, ty: Type)
        requires
            old(self).wf(),
        ensures
            final(self).wf(),
            final(self).scopes_m().len() == old(self).scopes_m().len(),
            final(self).scopes_m().drop_last() == old(self).scopes_m().drop_last(),
            rebinds(final(self).scopes_m().last(), old(self).scopes_m().last(), name@, (ty@, true)),
            final(self).scopes_m() == define_scopes(old(self).scopes_m(), name@, (ty@, true)),
            final(self).current_return_ty == old(self).current_return_ty,
            final(self).in_loop == old(self).in_loop,
    {
        self.define(name, Binding::mutable(ty));
    }

    /// Look up a name, searching from the innermost scope outward.
    pub fn lookup(&self, name: &str) -> (r: Option<&Binding>)
        requires
            self.wf(),
        ensures
            match r {
                Some(b) => self.binding_of(name@) == Some(b@),
                None => self.binding_of(name@) is None,
            },
    {
        let key = name.to_owned();
        let ghost m = self.scopes_m();
        let mut i: usize = self.scopes.len();
        assert(m.take(m.len() as int) =~= m);
        while i > 0
            invariant
                self.wf(),
                m == self.scopes_m(),
                i <= m.len(),
                lookup_m(m, name@) == lookup_m(m.take(i as int), name@),
                key@ == name@,
            decreases i,
        {
            let scope = &self.scopes[i - 1];
            assert(m[i - 1] == scope_view(scope@));
            assert(names_unique(m[i - 1]));
            assert(m.take(i as int).last() == m[i - 1]);
            assert(m.take(i as int).drop_last() =~= m.take(i - 1));
            proof {
                lemma_find_in_index(m[i - 1], name@);
            }
            let mut j: usize = 0;
            while j < scope.len()
                invariant
                    1 <= i <= m.len(),
                    j <= scope@.len(),
                    m[i - 1] == scope_view(scope@),
                    names_unique(m[i - 1]),
                    m == self.scopes_m(),
                    lookup_m(m, name@) == lookup_m(m.take(i as int), name@),
                    m.take(i as int).last() == m[i - 1],
                    key@ == name@,
                    forall|k: int| 0 <= k < j ==> #[trigger] scope@[k].0@ != name@,
                decreases scope@.len() - j,
            {
                if scope[j].0 == key {
                    proof {
                        assert(m[i - 1][j as int].0 == name@);
                        lemma_find_in_index(m[i - 1], name@);
                        assert(find_in(m.take(i as int).last(), name@) == Some(m[i - 1][j as int].1));
                    }
                    return Some(&scope[j].1);
                }
                j = j + 1;
            }
            assert forall|k: int| 0 <= k < m[i - 1].len() implies #[trigger] m[i - 1][k].0 != name@ by {
                assert(scope@[k].0@ != name@);
            }
            i = i - 1;
        }
        assert(m.take(0) =~= Seq::<ScopeM>::empty());
        None
    }

    /// Bind `name` in the global scope.
    fn define_builtin(&mut self, name: &str, ty: Type)
        requires
            old(self).wf(),
        ensures
            final(self).wf(),
            final(self).scopes_m().len() == old(self).scopes_m().len(),
            final(self).scopes_m().skip(1) == old(self).scopes_m().skip(1),
            rebinds(final(self).scopes_m()[0], old(self).scopes_m()[0], name@, (ty@, false)),
            final(self).current_return_ty == old(self).current_return_ty,
            final(self).in_loop == old(self).in_loop,
    {
        let ghost old_m = self.scopes_m();
        let mut scope = self.scopes.remove(0);
        assert(names_unique(old_m[0]));
        put(&mut scope, name.to_owned(), Binding::immutable(ty));
        self.scopes.insert(0, scope);
        proof {
            let m = self.scopes_m();
            assert(m.skip(1) =~= old_m.skip(1));
            assert forall|i: int| 0 <= i < m.len() implies names_unique(#[trigger] m[i]) by {
                if i > 0 {
                    assert(m[i] == old_m[i]);
                }
            }
        }
    }

    /// Create an environment holding Nova's built-in functions in the
    /// global scope.
    pub fn with_builtins() -> (e: Self)
        ensures
            e.wf(),
            e.scopes_m().len() == 1,
            forall|n: Seq<char>| #[trigger] e.binding_of(n) == builtin_binding(n),
            e.current_return_ty is None,
            !e.in_loop,
    {
        let mut env = Self::new();
        let ghost g0 = env.scopes_m()[0];
        // print / println accept any single argument and return void.
        let t = unary_fn(Type::Unknown, Type::Void);
        env.define_builtin("print", t);
        let ghost g1 = env.scopes_m()[0];
        let t = unary_fn(Type::Unknown, Type::Void);
        env.define_builtin("println", t);
        let ghost g2 = env.scopes_m()[0];
        // len(arr | str) -> i64
        let t = unary_fn(Type::Unknown, Type::I64);
        env.define_builtin("len", t);
        let ghost g3 = env.scopes_m()[0];
        // sum([]numeric) -> f64
        let t = unary_fn(Type::Unknown, Type::F64);
        env.define_builtin("sum", t);
        let ghost g4 = env.scopes_m()[0];
        // min / max take two arguments of any type
        let t = binary_fn(Type::Unknown, Type::Unknown, Type::Unknown);
        env.define_builtin("min", t);
        let ghost g5 = env.scopes_m()[0];
        let t = binary_fn(Type::Unknown, Type::Unknown, Type::Unknown);
        env.define_builtin("max", t);
        let ghost g6 = env.scopes_m()[0];
        // assert(bool) -> void
        let t = unary_fn(Type::Bool, Type::Void);
        env.define_builtin("assert", t);
        proof {
            let m = env.scopes_m();
            assert forall|n: Seq<char>| #[trigger] env.binding_of(n) == builtin_binding(n) by {
                assert(m.drop_last().len() == 0);
                assert(lookup_m(m.drop_last(), n) is None);
                assert(m.last() == m[0]);
                assert(find_in(g0, n) is None);
                assert(find_in(m[0], n) == builtin_binding(n)) by {
                    assert(find_in(g1, n) == if n == "print"@ { Some((fn_ty(seq![TyM::Unknown], TyM::Void), false)) } else { find_in(g0, n) });
                    assert(find_in(g2, n) == if n == "println"@ { Some((fn_ty(seq![TyM::Unknown], TyM::Void), false)) } else { find_in(g1, n) });
                    assert(find_in(g3, n) == if n == "len"@ { Some((fn_ty(seq![TyM::Unknown], TyM::I64), false)) } else { find_in(g2, n) });
                    assert(find_in(g4, n) == if n == "sum"@ { Some((fn_ty(seq![TyM::Unknown], TyM::F64), false)) } else { find_in(g3, n) });
                    assert(find_in(g5, n) == if n == "min"@ { Some((fn_ty(seq![TyM::Unknown, TyM::Unknown], TyM::Unknown), false)) } else { find_in(g4, n) });
                    assert(find_in(g6, n) == if n == "max"@ { Some((fn_ty(seq![TyM::Unknown, TyM::Unknown], TyM::Unknown), false)) } else { find_in(g5, n) });
                }
            }
        }
        env
    }

    /// Whether `name` is bound, in the nearest scope that binds it, by `var`.
    pub fn is_mutable(&self, name: &str) -> (r: bool)
        requires
            self.wf(),
        ensures
            r == (self.binding_of(name@) matches Some(b) && b.1),
    {
        match self.lookup(name) {
            Some(b) => b.mutable,
            None => false,
        }
    }
}

/// The function type from `p` to `r`.
fn unary_fn(p: Type, r: Type) -> (t: Type)
    ensures
        t@ == fn_ty(seq![p@], r@),
{
    let ps = vec![p];
    proof {
        lemma_tys_view(ps@);
        assert(crate::check::types::tys_view(ps@) =~= seq![ps@[0]@]);
    }
    Type::Function { params: ps, ret: Box::new(r) }
}

/// The function type from `p` and `q` to `r`.
fn binary_fn(p: Type, q: Type, r: Type) -> (t: Type)
    ensures
        t@ == fn_ty(seq![p@, q@], r@),
{
    let ps = vec![p, q];
    proof {
        lemma_tys_view(ps@);
        assert(crate::check::types::tys_view(ps@) =~= seq![ps@[0]@, ps@[1]@]);
    }
    Type::Function { params: ps, ret: Box::new(r) }
}

/// The function type with parameter types `ps` and result type `r`.
pub open spec fn fn_ty(ps: Seq<TyM>, r: TyM) -> TyM {
    TyM::Function(ps, Box::new(r))
}

/// The built-in functions: `print` and `println` take anything and return
/// void, `len` returns `i64`, `sum` returns `f64`, `min` and `max` take two
/// arguments of any type, and `assert` takes a `bool`.
pub open spec fn builtin_binding(n: Seq<char>) -> Option<BindingM> {
    if n == "assert"@ {
        Some((fn_ty(seq![TyM::Bool], TyM::Void), false))
    } else if n == "max"@ || n == "min"@ {
        Some((fn_ty(seq![TyM::Unknown, TyM::Unknown], TyM::Unknown), false))
    } else if n == "sum"@ {
        Some((fn_ty(seq![TyM::Unknown], TyM::F64), false))
    } else if n == "len"@ {
        Some((fn_ty(seq![TyM::Unknown], TyM::I64), false))
    } else if n == "println"@ || n == "print"@ {
        Some((fn_ty(seq![TyM::Unknown], TyM::Void), false))
    } else {
        None
    }
}

/// What a lookup finds after a definition in the innermost scope: the new
/// binding for its name, and for every other name what it found before.
pub proof fn lemma_lookup_after_define(
    old_s: Seq<ScopeM>,
    new_s: Seq<ScopeM>,
    name: Seq<char>,
    b: BindingM,
    n: Seq<char>,
)
    requires
        old_s.len() >= 1,
        new_s.len() == old_s.len(),
        new_s.drop_last() == old_s.drop_last(),
        rebinds(new_s.last(), old_s.last(), name, b),
    ensures
        lookup_m(new_s, n) == if n == name {
            Some(b)
        } else {
            lookup_m(old_s, n)
        },
{
    assert(find_in(new_s.last(), n) == if n == name {
        Some(b)
    } else {
        find_in(old_s.last(), n)
    });
}

/// Leaving a scope forgets what was defined in it: entering a scope and
/// leaving it again finds what was found before.
pub proof fn lemma_scope_round_trip(s: Seq<ScopeM>, inner: ScopeM, n: Seq<char>)
    ensures
        lookup_m(s.push(inner).drop_last(), n) == lookup_m(s, n),
{
    assert(s.push(inner).drop_last() =~= s);
}

/// A name bound in the innermost scope shadows outer bindings of it.
pub proof fn lemma_inner_shadows(s: Seq<ScopeM>, inner: ScopeM, n: Seq<char>)
    requires
        find_in(inner, n) is Some,
    ensures
        lookup_m(s.push(inner), n) == find_in(inner, n),
{
    assert(s.push(inner).last() == inner);
}

/// An environment as a value: its scopes, the return type of the function
/// being checked, and whether a loop is being checked.
pub struct EnvM {
    pub scopes: Seq<ScopeM>,
    pub ret: Option<TyM>,
    pub in_loop: bool,
}

impl View for Env {
    type V = EnvM;

    open spec fn view(&self) -> EnvM {
        EnvM {
            scopes: self.scopes_m(),
            ret: match self.current_return_ty {
                Some(t) => Some(t@),
                None => None,
            },
            in_loop: self.in_loop,
        }
    }
}

impl Default for Env {
    /// An environment with the built-in functions.
    fn default() -> (e: Self)
        ensures
            e.wf(),
            e.scopes_m().len() == 1,
            forall|n: Seq<char>| #[trigger] e.binding_of(n) == builtin_binding(n),
            e.current_return_ty is None,
            !e.in_loop,
    {
        Self::with_builtins()
    }
}

} // verus!
