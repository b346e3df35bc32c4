//! Types of the Nova type system and their mathematical model.
use vstd::prelude::*;

verus! {

broadcast use vstd::std_specs::vec::group_vec_axioms;

/// A unique identifier for type variables during inference
pub type TypeVarId = u64;

/// Concrete types in the Nova type system
#[derive(Debug, PartialEq)]
pub enum Type {
    Int,
    Float,
    Bool,
    Str,
    Char,
    NoneType,
    /// `list[T]`
    List(Box<Type>),
    /// `dict[K, V]`
    Dict(Box<Type>, Box<Type>),
    /// `(A, B, C)`
    Tuple(Vec<Type>),
    /// `T?`: optional/nullable
    Optional(Box<Type>),
    /// `T or E`: result type
    Result(Box<Type>, Box<Type>),
    /// `(params) -> return [effects]`
    Function { params: Vec<Type>, return_type: Box<Type>, effects: Vec<Effect> },
    /// A struct type with its fields
    Struct(StructType),
    /// An enum type with its variants
    Enum(EnumType),
    /// Reference to a named type (before resolution)
    Named(String),
    /// An unresolved type variable (placeholder during inference)
    Var(TypeVarId),
    /// The type of an expression that never returns (e.g. `break`, `return`)
    Never,
    /// Error placeholder: allows type checking to continue after errors
    Error,
}

/// A declared effect that a function may have
#[derive(Debug, Clone, PartialEq, Eq, Hash)]
pub enum Effect {
    IO,
    Error,
    Net,
    Custom(String),
}

/// A struct type definition
#[derive(Debug, PartialEq)]
pub struct StructType {
    pub name: String,
    pub fields: Vec<(String, Type)>,
    pub is_pub: bool,
}

/// An enum type definition
#[derive(Debug, PartialEq)]
pub struct EnumType {
    pub name: String,
    pub variants: Vec<(String, Vec<Type>)>,
    pub is_pub: bool,
}

/// Information about a function for type checking
#[derive(Debug)]
pub struct FunctionSig {
    pub name: String,
    pub params: Vec<(String, Type)>,
    pub return_type: Type,
    pub effects: Vec<Effect>,
    pub is_pure: bool,
    pub is_pub: bool,
}

// ── Mathematical model ──────────────────────────────────────

/// The value of an `Effect`.
pub enum EffectM {
    IO,
    Error,
    Net,
    Custom(Seq<char>),
}

/// The value of a `StructType`.
pub struct StructM {
    pub name: Seq<char>,
    pub fields: Seq<(Seq<char>, TypeM)>,
    pub is_pub: bool,
}

/// The value of an `EnumType`.
pub struct EnumM {
    pub name: Seq<char>,
    pub variants: Seq<(Seq<char>, Seq<TypeM>)>,
    pub is_pub: bool,
}

/// The value of a `Type`: the same tree with sequences and character
/// strings in place of vectors and `String`s.
pub enum TypeM {
    Int,
    Float,
    Bool,
    Str,
    Char,
    NoneT,
    List(Box<TypeM>),
    Dict(Box<TypeM>, Box<TypeM>),
    Tuple(Seq<TypeM>),
    Optional(Box<TypeM>),
    Result(Box<TypeM>, Box<TypeM>),
    Function(Seq<TypeM>, Box<TypeM>, Seq<EffectM>),
    Struct(StructM),
    Enum(EnumM),
    Named(Seq<char>),
    Var(TypeVarId),
    Never,
    Error,
}

impl View for Effect {
    type V = EffectM;

    open spec fn view(&self) -> EffectM {
        match self {
            Effect::IO => EffectM::IO,
            Effect::Error => EffectM::Error,
            Effect::Net => EffectM::Net,
            Effect::Custom(s) => EffectM::Custom(s@),
        }
    }
}

/// The values of a vector of effects.
pub open spec fn effects_view(es: Seq<Effect>) -> Seq<EffectM> {
    Seq::new(es.len(), |i: int| es[i]@)
}

/// The values of a vector of types.
pub open spec fn types_view(ts: Seq<Type>) -> Seq<TypeM>
    decreases ts,
{
    if ts.len() == 0 {
        Seq::empty()
    } else {
        types_view(ts.drop_last()).push(type_model(&ts.last()))
    }
}

/// The values of struct fields.
pub open spec fn fields_view(fs: Seq<(String, Type)>) -> Seq<(Seq<char>, TypeM)>
    decreases fs,
{
    if fs.len() == 0 {
        Seq::empty()
    } else {
        fields_view(fs.drop_last()).push((fs.last().0@, type_model(&fs.last().1)))
    }
}

/// The values of enum variants.
pub open spec fn variants_view(vs: Seq<(String, Vec<Type>)>) -> Seq<(Seq<char>, Seq<TypeM>)>
    decreases vs,
{
    if vs.len() == 0 {
        Seq::empty()
    } else {
        variants_view(vs.drop_last()).push((vs.last().0@, types_view(vs.last().1@)))
    }
}

/// Length and elements of `types_view`.
pub broadcast proof fn lemma_types_view(ts: Seq<Type>)
    ensures
        #[trigger] types_view(ts).len() == ts.len(),
        forall|i: int| 0 <= i < ts.len() ==> #[trigger] types_view(ts)[i] == ts[i]@,
    decreases ts.len(),
{
    if ts.len() > 0 {
        lemma_types_view(ts.drop_last());
        assert forall|i: int| 0 <= i < ts.len() implies #[trigger] types_view(ts)[i] == ts[i]@ by {
            if i < ts.len() - 1 {
                assert(ts.drop_last()[i] == ts[i]);
            }
        }
    }
}

/// Length and elements of `fields_view`.
pub broadcast proof fn lemma_fields_view(fs: Seq<(String, Type)>)
    ensures
        #[trigger] fields_view(fs).len() == fs.len(),
        forall|i: int|
            0 <= i < fs.len() ==> #[trigger] fields_view(fs)[i] == (fs[i].0@, fs[i].1@),
    decreases fs.len(),
{
    if fs.len() > 0 {
        lemma_fields_view(fs.drop_last());
        assert forall|i: int| 0 <= i < fs.len() implies #[trigger] fields_view(fs)[i] == (
            fs[i].0@,
            fs[i].1@,
        ) by {
            if i < fs.len() - 1 {
                assert(fs.drop_last()[i] == fs[i]);
            }
        }
    }
}

/// Length and elements of `variants_view`.
pub broadcast proof fn lemma_variants_view(vs: Seq<(String, Vec<Type>)>)
    ensures
        #[trigger] variants_view(vs).len() == vs.len(),
        forall|i: int|
            0 <= i < vs.len() ==> #[trigger] variants_view(vs)[i] == (
                vs[i].0@,
                types_view(vs[i].1@),
            ),
    decreases vs.len(),
{
    if vs.len() > 0 {
        lemma_variants_view(vs.drop_last());
        assert forall|i: int| 0 <= i < vs.len() implies #[trigger] variants_view(vs)[i] == (
            vs[i].0@,
            types_view(vs[i].1@),
        ) by {
            if i < vs.len() - 1 {
                assert(vs.drop_last()[i] == vs[i]);
            }
        }
    }
}

/// Lengths and elements of the views of vectors.
pub broadcast group group_type_views {
    lemma_types_view,
    lemma_fields_view,
    lemma_variants_view,
}

/// The value of a type.
pub open spec fn type_model(t: &Type) -> TypeM
    decreases t,
{
    match t {
        Type::Int => TypeM::Int,
        Type::Float => TypeM::Float,
        Type::Bool => TypeM::Bool,
        Type::Str => TypeM::Str,
        Type::Char => TypeM::Char,
        Type::NoneType => TypeM::NoneT,
        Type::List(t) => TypeM::List(Box::new(type_model(&**t))),
        Type::Dict(k, v) => TypeM::Dict(Box::new(type_model(&**k)), Box::new(type_model(&**v))),
        Type::Tuple(ts) => TypeM::Tuple(types_view(ts@)),
        Type::Optional(t) => TypeM::Optional(Box::new(type_model(&**t))),
        Type::Result(t, e) => TypeM::Result(Box::new(type_model(&**t)), Box::new(type_model(&**e))),
        Type::Function { params, return_type, effects } => TypeM::Function(
            types_view(params@),
            Box::new(type_model(&**return_type)),
            effects_view(effects@),
        ),
        Type::Struct(st) => TypeM::Struct(
            StructM { name: st.name@, fields: fields_view(st.fields@), is_pub: st.is_pub },
        ),
        Type::Enum(e) => TypeM::Enum(
            EnumM { name: e.name@, variants: variants_view(e.variants@), is_pub: e.is_pub },
        ),
        Type::Named(n) => TypeM::Named(n@),
        Type::Var(id) => TypeM::Var(*id),
        Type::Never => TypeM::Never,
        Type::Error => TypeM::Error,
    }
}

impl View for Type {
    type V = TypeM;

    open spec fn view(&self) -> TypeM {
        type_model(self)
    }
}

/// Whether `t` mentions a type variable (outside struct and enum definitions).
pub open spec fn has_vars_m(t: TypeM) -> bool
    decreases t,
{
    match t {
        TypeM::Var(_) => true,
        TypeM::List(i) => has_vars_m(*i),
        TypeM::Optional(i) => has_vars_m(*i),
        TypeM::Dict(k, v) => has_vars_m(*k) || has_vars_m(*v),
        TypeM::Result(k, v) => has_vars_m(*k) || has_vars_m(*v),
        TypeM::Tuple(ts) => has_vars_seq(ts),
        TypeM::Function(ps, r, _) => has_vars_seq(ps) || has_vars_m(*r),
        _ => false,
    }
}

/// Whether some type of `ts` mentions a type variable.
pub open spec fn has_vars_seq(ts: Seq<TypeM>) -> bool
    decreases ts,
{
    if ts.len() == 0 {
        false
    } else {
        has_vars_seq(ts.drop_last()) || has_vars_m(ts.last())
    }
}

/// The primitive types: int, float, bool, str, char and none.
pub open spec fn is_primitive_m(t: TypeM) -> bool {
    match t {
        TypeM::Int | TypeM::Float | TypeM::Bool | TypeM::Str | TypeM::Char | TypeM::NoneT => true,
        _ => false,
    }
}

/// The effect that the name `s` denotes.
pub open spec fn parse_effect(s: Seq<char>) -> EffectM {
    if s == "io"@ {
        EffectM::IO
    } else if s == "error"@ {
        EffectM::Error
    } else if s == "net"@ {
        EffectM::Net
    } else {
        EffectM::Custom(s)
    }
}

proof fn lemma_has_vars_seq_index(ts: Seq<TypeM>)
    ensures
        has_vars_seq(ts) <==> exists|i: int| 0 <= i < ts.len() && #[trigger] has_vars_m(ts[i]),
    decreases ts.len(),
{
    if ts.len() > 0 {
        lemma_has_vars_seq_index(ts.drop_last());
        if has_vars_m(ts.last()) {
            assert(has_vars_m(ts[ts.len() - 1]));
        }
        if exists|i: int| 0 <= i < ts.len() && #[trigger] has_vars_m(ts[i]) {
            let i = choose|i: int| 0 <= i < ts.len() && #[trigger] has_vars_m(ts[i]);
            if i < ts.len() - 1 {
                assert(ts.drop_last()[i] == ts[i]);
            }
        }
    }
}

impl Effect {
    /// An equal copy of this effect.
    pub fn duplicate(&self) -> (r: Effect)
        ensures
            r@ == self@,
    {
        match self {
            Effect::IO => Effect::IO,
            Effect::Error => Effect::Error,
            Effect::Net => Effect::Net,
            Effect::Custom(s) => Effect::Custom(s.clone()),
        }
    }

    /// Whether two effects are the same.
    pub fn same_as(&self, other: &Effect) -> (r: bool)
        ensures
            r == (self@ == other@),
    {
        match (self, other) {
            (Effect::IO, Effect::IO) => true,
            (Effect::Error, Effect::Error) => true,
            (Effect::Net, Effect::Net) => true,
            (Effect::Custom(a), Effect::Custom(b)) => *a == *b,
            _ => false,
        }
    }

    /// The effect named by `s`: `io`, `error`, `net`, or a custom effect.
    pub fn parse(s: &str) -> (e: Effect)
        ensures
            e@ == parse_effect(s@),
    {
        let owned = s.to_owned();
        let io = "io".to_owned();
        let error = "error".to_owned();
        let net = "net".to_owned();
        proof {
            reveal_strlit("io");
            reveal_strlit("error");
            reveal_strlit("net");
        }
        if owned == io {
            Effect::IO
        } else if owned == error {
            Effect::Error
        } else if owned == net {
            Effect::Net
        } else {
            Effect::Custom(owned)
        }
    }
}

/// An equal copy of a vector of effects.
pub fn duplicate_effects(es: &Vec<Effect>) -> (r: Vec<Effect>)
    ensures
        effects_view(r@) == effects_view(es@),
{
    let mut r: Vec<Effect> = Vec::new();
    let mut i: usize = 0;
    while i < es.len()
        invariant
            i <= es@.len(),
            r@.len() == i,
            forall|j: int| 0 <= j < i ==> #[trigger] r@[j]@ == es@[j]@,
        decreases es@.len() - i,
    {
        r.push(es[i].duplicate());
        i = i + 1;
    }
    assert(effects_view(r@) =~= effects_view(es@));
    r
}

/// Whether two vectors of effects are equal.
pub fn same_effects(a: &Vec<Effect>, b: &Vec<Effect>) -> (r: bool)
    ensures
        r == (effects_view(a@) == effects_view(b@)),
{
    if a.len() != b.len() {
        assert(effects_view(a@).len() != effects_view(b@).len());
        return false;
    }
    let mut i: usize = 0;
    while i < a.len()
        invariant
            i <= a@.len(),
            a@.len() == b@.len(),
            forall|j: int| 0 <= j < i ==> #[trigger] a@[j]@ == b@[j]@,
        decreases a@.len() - i,
    {
        if !a[i].same_as(&b[i]) {
            assert(effects_view(a@)[i as int] != effects_view(b@)[i as int]);
            return false;
        }
        i = i + 1;
    }
    assert(effects_view(a@) =~= effects_view(b@));
    true
}

impl Type {
    /// An equal copy of this type.
    pub fn duplicate(&self) -> (r: Type)
        ensures
            r@ == self@,
        decreases self,
    {
        match self {
            Type::Int => Type::Int,
            Type::Float => Type::Float,
            Type::Bool => Type::Bool,
            Type::Str => Type::Str,
            Type::Char => Type::Char,
            Type::NoneType => Type::NoneType,
            Type::List(t) => Type::List(Box::new(t.duplicate())),
            Type::Dict(k, v) => Type::Dict(Box::new(k.duplicate()), Box::new(v.duplicate())),
            Type::Tuple(ts) => {
                let r = duplicate_types(ts);
                proof {
                    assert(types_view(r@) =~= types_view(ts@));
                }
                let out = Type::Tuple(r);
                assert(out@ == self@);
                out
            },
            Type::Optional(t) => Type::Optional(Box::new(t.duplicate())),
            Type::Result(t, e) => Type::Result(Box::new(t.duplicate()), Box::new(e.duplicate())),
            Type::Function { params, return_type, effects } => {
                let ps = duplicate_types(params);
                let rt = return_type.duplicate();
                let es = duplicate_effects(effects);
                let out = Type::Function { params: ps, return_type: Box::new(rt), effects: es };
                proof {
                    assert(types_view(ps@) =~= types_view(params@));
                }
                assert(out@ == self@);
                out
            },
            Type::Struct(s) => {
                let r = s.duplicate();
                Type::Struct(r)
            },
            Type::Enum(e) => {
                let r = e.duplicate();
                Type::Enum(r)
            },
            Type::Named(n) => Type::Named(n.clone()),
            Type::Var(id) => Type::Var(*id),
            Type::Never => Type::Never,
            Type::Error => Type::Error,
        }
    }
}

/// An equal copy of a vector of types.
pub fn duplicate_types(ts: &Vec<Type>) -> (r: Vec<Type>)
    ensures
        r@.len() == ts@.len(),
        forall|j: int| 0 <= j < ts@.len() ==> #[trigger] r@[j]@ == ts@[j]@,
        types_view(r@) == types_view(ts@),
    decreases ts,
{
    let mut r: Vec<Type> = Vec::new();
    let mut i: usize = 0;
    while i < ts.len()
        invariant
            i <= ts@.len(),
            r@.len() == i,
            forall|j: int| 0 <= j < i ==> #[trigger] r@[j]@ == ts@[j]@,
        decreases ts@.len() - i,
    {
        assert(decreases_to!(ts => ts@[i as int]));
        r.push(ts[i].duplicate());
        i = i + 1;
    }
    proof {
        lemma_types_view_ext(r@, ts@);
    }
    r
}

/// Vectors of types with pointwise equal values have equal values.
pub proof fn lemma_types_view_ext(a: Seq<Type>, b: Seq<Type>)
    requires
        a.len() == b.len(),
        forall|j: int| 0 <= j < a.len() ==> #[trigger] a[j]@ == b[j]@,
    ensures
        types_view(a) == types_view(b),
{
    broadcast use group_type_views;

    assert(types_view(a).len() == a.len());
    assert(types_view(b).len() == b.len());
    assert forall|j: int| 0 <= j < a.len() implies #[trigger] types_view(a)[j] == types_view(b)[j] by {
        assert(a[j]@ == b[j]@);
    }
    assert(types_view(a) =~= types_view(b));
}

proof fn lemma_fields_view_ext(a: Seq<(String, Type)>, b: Seq<(String, Type)>)
    requires
        a.len() == b.len(),
        forall|j: int| 0 <= j < a.len() ==> (#[trigger] a[j]).0@ == b[j].0@ && a[j].1@ == b[j].1@,
    ensures
        fields_view(a) == fields_view(b),
{
    broadcast use group_type_views;

    assert(fields_view(a).len() == a.len());
    assert(fields_view(b).len() == b.len());
    assert forall|j: int| 0 <= j < a.len() implies #[trigger] fields_view(a)[j] == fields_view(b)[j] by {
        assert(a[j].0@ == b[j].0@);
    }
    assert(fields_view(a) =~= fields_view(b));
}

proof fn lemma_variants_view_ext(a: Seq<(String, Vec<Type>)>, b: Seq<(String, Vec<Type>)>)
    requires
        a.len() == b.len(),
        forall|j: int|
            0 <= j < a.len() ==> (#[trigger] a[j]).0@ == b[j].0@ && types_view(a[j].1@)
                == types_view(b[j].1@),
    ensures
        variants_view(a) == variants_view(b),
{
    broadcast use group_type_views;

    assert(variants_view(a).len() == a.len());
    assert(variants_view(b).len() == b.len());
    assert forall|j: int| 0 <= j < a.len() implies #[trigger] variants_view(a)[j] == variants_view(b)[j] by {
        assert(a[j].0@ == b[j].0@);
    }
    assert(variants_view(a) =~= variants_view(b));
}

impl StructType {
    /// An equal copy of this struct type.
    pub fn duplicate(&self) -> (r: StructType)
        ensures
            Type::Struct(r)@ == Type::Struct(*self)@,
        decreases self,
    {
        let mut fields: Vec<(String, Type)> = Vec::new();
        let mut i: usize = 0;
        while i < self.fields.len()
            invariant
                i <= self.fields@.len(),
                fields@.len() == i,
                forall|j: int|
                    0 <= j < i ==> (#[trigger] fields@[j]).0@ == self.fields@[j].0@ && fields@[j].1@
                        == self.fields@[j].1@,
            decreases self.fields@.len() - i,
        {
            assert(decreases_to!(self => self.fields@[i as int].1));
            let f = &self.fields[i];
            fields.push((f.0.clone(), f.1.duplicate()));
            i = i + 1;
        }
        let r = StructType { name: self.name.clone(), fields, is_pub: self.is_pub };
        proof {
            lemma_fields_view_ext(r.fields@, self.fields@);
        }
        r
    }
}

impl EnumType {
    /// An equal copy of this enum type.
    pub fn duplicate(&self) -> (r: EnumType)
        ensures
            Type::Enum(r)@ == Type::Enum(*self)@,
        decreases self,
    {
        let mut variants: Vec<(String, Vec<Type>)> = Vec::new();
        let mut i: usize = 0;
        while i < self.variants.len()
            invariant
                i <= self.variants@.len(),
                variants@.len() == i,
                forall|j: int|
                    0 <= j < i ==> (#[trigger] variants@[j]).0@ == self.variants@[j].0@
                        && types_view(variants@[j].1@) == types_view(self.variants@[j].1@),
            decreases self.variants@.len() - i,
        {
            assert(decreases_to!(self => self.variants@[i as int].1));
            let v = &self.variants[i];
            variants.push((v.0.clone(), duplicate_types(&v.1)));
            i = i + 1;
        }
        let r = EnumType { name: self.name.clone(), variants, is_pub: self.is_pub };
        proof {
            lemma_variants_view_ext(r.variants@, self.variants@);
        }
        r
    }
}

/// Whether two vectors of types have the same values.
pub fn same_types(a: &Vec<Type>, b: &Vec<Type>) -> (r: bool)
    ensures
        r == (types_view(a@) == types_view(b@)),
    decreases a,
{
    proof {
        lemma_types_view(a@);
        lemma_types_view(b@);
    }
    if a.len() != b.len() {
        return false;
    }
    let mut i: usize = 0;
    while i < a.len()
        invariant
            i <= a@.len(),
            a@.len() == b@.len(),
            types_view(a@).len() == a@.len(),
            types_view(b@).len() == b@.len(),
            forall|j: int| 0 <= j < a@.len() ==> #[trigger] types_view(a@)[j] == a@[j]@,
            forall|j: int| 0 <= j < b@.len() ==> #[trigger] types_view(b@)[j] == b@[j]@,
            forall|j: int| 0 <= j < i ==> #[trigger] a@[j]@ == b@[j]@,
        decreases a@.len() - i,
    {
        assert(decreases_to!(a => a@[i as int]));
        if !a[i].same_as(&b[i]) {
            assert(types_view(a@)[i as int] != types_view(b@)[i as int]);
            return false;
        }
        i = i + 1;
    }
    assert(types_view(a@) =~= types_view(b@));
    true
}

impl Type {
    /// Whether two types are the same.
    pub fn same_as(&self, other: &Type) -> (r: bool)
        ensures
            r == (self@ == other@),
        decreases self,
    {
        match (self, other) {
            (Type::Int, Type::Int) => true,
            (Type::Float, Type::Float) => true,
            (Type::Bool, Type::Bool) => true,
            (Type::Str, Type::Str) => true,
            (Type::Char, Type::Char) => true,
            (Type::NoneType, Type::NoneType) => true,
            (Type::List(a), Type::List(b)) => a.same_as(b),
            (Type::Optional(a), Type::Optional(b)) => a.same_as(b),
            (Type::Dict(ak, av), Type::Dict(bk, bv)) => ak.same_as(bk) && av.same_as(bv),
            (Type::Result(ak, av), Type::Result(bk, bv)) => ak.same_as(bk) && av.same_as(bv),
            (Type::Tuple(a), Type::Tuple(b)) => same_types(a, b),
            (
                Type::Function { params: ap, return_type: ar, effects: ae },
                Type::Function { params: bp, return_type: br, effects: be },
            ) => same_types(ap, bp) && ar.same_as(br) && same_effects(ae, be),
            (Type::Struct(a), Type::Struct(b)) => a.same_as(b),
            (Type::Enum(a), Type::Enum(b)) => a.same_as(b),
            (Type::Named(a), Type::Named(b)) => *a == *b,
            (Type::Var(a), Type::Var(b)) => *a == *b,
            (Type::Never, Type::Never) => true,
            (Type::Error, Type::Error) => true,
            _ => false,
        }
    }
}

impl StructType {
    /// Whether two struct types are the same.
    pub fn same_as(&self, other: &StructType) -> (r: bool)
        ensures
            r == (Type::Struct(*self)@ == Type::Struct(*other)@),
        decreases self,
    {
        proof {
            lemma_fields_view(self.fields@);
            lemma_fields_view(other.fields@);
        }
        if self.name != other.name || self.is_pub != other.is_pub || self.fields.len()
            != other.fields.len() {
            return false;
        }
        let mut i: usize = 0;
        while i < self.fields.len()
            invariant
                i <= self.fields@.len(),
                self.fields@.len() == other.fields@.len(),
                fields_view(self.fields@).len() == self.fields@.len(),
                fields_view(other.fields@).len() == other.fields@.len(),
                forall|j: int|
                    0 <= j < self.fields@.len() ==> #[trigger] fields_view(self.fields@)[j] == (
                        self.fields@[j].0@,
                        self.fields@[j].1@,
                    ),
                forall|j: int|
                    0 <= j < other.fields@.len() ==> #[trigger] fields_view(other.fields@)[j] == (
                        other.fields@[j].0@,
                        other.fields@[j].1@,
                    ),
                forall|j: int|
                    0 <= j < i ==> #[trigger] fields_view(self.fields@)[j] == fields_view(
                        other.fields@,
                    )[j],
            decreases self.fields@.len() - i,
        {
            assert(decreases_to!(self => self.fields@[i as int].1));
            if self.fields[i].0 != other.fields[i].0 || !self.fields[i].1.same_as(
                &other.fields[i].1,
            ) {
                assert(fields_view(self.fields@)[i as int] != fields_view(other.fields@)[i as int]);
                return false;
            }
            i = i + 1;
        }
        assert(fields_view(self.fields@) =~= fields_view(other.fields@));
        true
    }
}

impl EnumType {
    /// Whether two enum types are the same.
    pub fn same_as(&self, other: &EnumType) -> (r: bool)
        ensures
            r == (Type::Enum(*self)@ == Type::Enum(*other)@),
        decreases self,
    {
        proof {
            lemma_variants_view(self.variants@);
            lemma_variants_view(other.variants@);
        }
        if self.name != other.name || self.is_pub != other.is_pub || self.variants.len()
            != other.variants.len() {
            return false;
        }
        let mut i: usize = 0;
        while i < self.variants.len()
            invariant
                i <= self.variants@.len(),
                self.variants@.len() == other.variants@.len(),
                variants_view(self.variants@).len() == self.variants@.len(),
                variants_view(other.variants@).len() == other.variants@.len(),
                forall|j: int|
                    0 <= j < self.variants@.len() ==> #[trigger] variants_view(self.variants@)[j] == (
                        self.variants@[j].0@,
                        types_view(self.variants@[j].1@),
                    ),
                forall|j: int|
                    0 <= j < other.variants@.len() ==> #[trigger] variants_view(other.variants@)[j]
                        == (other.variants@[j].0@, types_view(other.variants@[j].1@)),
                forall|j: int|
                    0 <= j < i ==> #[trigger] variants_view(self.variants@)[j] == variants_view(
                        other.variants@,
                    )[j],
            decreases self.variants@.len() - i,
        {
            assert(decreases_to!(self => self.variants@[i as int].1));
            if self.variants[i].0 != other.variants[i].0 || !same_types(
                &self.variants[i].1,
                &other.variants[i].1,
            ) {
                assert(variants_view(self.variants@)[i as int] != variants_view(other.variants@)[i as int]);
                return false;
            }
            i = i + 1;
        }
        assert(variants_view(self.variants@) =~= variants_view(other.variants@));
        true
    }
}

impl Type {
    /// Generate a fresh type variable for inference, numbered by the counter,
    /// which then moves on (wrapping around at the top of its range).
    pub fn fresh_var(next: &mut TypeVarId) -> (r: Type)
        ensures
            r@ == TypeM::Var(*old(next)),
            *final(next) == if *old(next) == u64::MAX {
                0
            } else {
                (*old(next) + 1) as u64
            },
    {
        let id = *next;
        *next = next.wrapping_add(1);
        Type::Var(id)
    }

    /// Check if this type contains any unresolved type variables.
    pub fn has_vars(&self) -> (r: bool)
        ensures
            r == has_vars_m(self@),
        decreases self,
    {
        match self {
            Type::Var(_) => true,
            Type::List(t) => t.has_vars(),
            Type::Optional(t) => t.has_vars(),
            Type::Dict(k, v) => k.has_vars() || v.has_vars(),
            Type::Result(k, v) => k.has_vars() || v.has_vars(),
            Type::Tuple(ts) => any_has_vars(ts),
            Type::Function { params, return_type, .. } => any_has_vars(params) || return_type.has_vars(),
            _ => false,
        }
    }

    /// Check if this type is numeric (int or float).
    pub fn is_numeric(&self) -> (r: bool)
        ensures
            r == (self@ is Int || self@ is Float),
    {
        matches!(self, Type::Int | Type::Float)
    }

    /// Check if this type is a primitive.
    pub fn is_primitive(&self) -> (r: bool)
        ensures
            r == is_primitive_m(self@),
    {
        matches!(self, Type::Int | Type::Float | Type::Bool | Type::Str | Type::Char | Type::NoneType)
    }
}

/// Whether some type of `ts` contains a type variable.
fn any_has_vars(ts: &Vec<Type>) -> (r: bool)
    ensures
        r == has_vars_seq(types_view(ts@)),
    decreases ts,
{
    proof {
        lemma_types_view(ts@);
        lemma_has_vars_seq_index(types_view(ts@));
    }
    let mut i: usize = 0;
    while i < ts.len()
        invariant
            i <= ts@.len(),
            types_view(ts@).len() == ts@.len(),
            forall|j: int| 0 <= j < ts@.len() ==> #[trigger] types_view(ts@)[j] == ts@[j]@,
            forall|j: int| 0 <= j < i ==> !has_vars_m(#[trigger] types_view(ts@)[j]),
        decreases ts@.len() - i,
    {
        assert(decreases_to!(ts => ts@[i as int]));
        if ts[i].has_vars() {
            proof {
                lemma_has_vars_seq_index(types_view(ts@));
                assert(has_vars_m(types_view(ts@)[i as int]));
            }
            return true;
        }
        i = i + 1;
    }
    proof {
        lemma_has_vars_seq_index(types_view(ts@));
    }
    false
}

} // verus!
