//! How deeply the statements of a program nest, which bounds the
//! indentation the formatter writes.
use vstd::prelude::*;
use crate::formatter::layout::{arms_depth, elifs_depth, max_nat, stmt_depth, stmts_depth};
use crate::infer::ast::{Expression, MatchArm, Program, Statement};

verus! {

/// `1 + d`, or nothing when it does not fit.
fn plus(k: usize, d: Option<usize>) -> (r: Option<usize>)
    ensures
        match d {
            Some(x) => match r {
                Some(y) => y == k + x,
                None => k + x > usize::MAX,
            },
            None => r is None,
        },
{
    match d {
        Some(x) => x.checked_add(k),
        None => None,
    }
}

/// The nesting below one statement, or nothing when it does not fit in a
/// `usize`.
fn stmt_depth_of(st: &Statement) -> (r: Option<usize>)
    ensures
        match r {
            Some(d) => d == stmt_depth(*st),
            None => stmt_depth(*st) > usize::MAX,
        },
    decreases st, 1nat,
{
    match st {
        Statement::FunctionDef { body, .. } => plus(1, stmts_depth_of(body)),
        Statement::StructDef { .. } | Statement::EnumDef { .. } | Statement::TraitDef { .. } => Some(1),
        Statement::ImplBlock { methods, .. } => plus(1, stmts_depth_of(methods)),
        Statement::If { body, elif_clauses, else_body, .. } => {
            let a = stmts_depth_of(body);
            let b = elifs_depth_of(elif_clauses);
            let c = match else_body {
                Some(e) => stmts_depth_of(e),
                None => Some(0),
            };
            match (a, b, c) {
                (Some(x), Some(y), Some(z)) => {
                    let m = if x >= y {
                        x
                    } else {
                        y
                    };
                    let n = if m >= z {
                        m
                    } else {
                        z
                    };
                    plus(1, Some(n))
                },
                _ => None,
            }
        },
        Statement::ForLoop { body, .. } => plus(1, stmts_depth_of(body)),
        Statement::WhileLoop { body, .. } => plus(1, stmts_depth_of(body)),
        Statement::Match { arms, .. } => plus(2, arms_depth_of(arms)),
        _ => Some(0),
    }
}

/// The deepest nesting among statements, or nothing when it does not fit.
fn stmts_depth_of(sts: &Vec<Statement>) -> (r: Option<usize>)
    ensures
        match r {
            Some(d) => d == stmts_depth(sts@),
            None => stmts_depth(sts@) > usize::MAX,
        },
    decreases sts, 0nat,
{
    let mut d: usize = 0;
    let mut i: usize = 0;
    assert(sts@.take(0) =~= Seq::<Statement>::empty());
    while i < sts.len()
        invariant
            i <= sts@.len(),
            d == stmts_depth(sts@.take(i as int)),
        decreases sts@.len() - i,
    {
        assert(decreases_to!(sts => sts@[i as int]));
        assert(sts@.take(i + 1).drop_last() =~= sts@.take(i as int));
        match stmt_depth_of(&sts[i]) {
            Some(x) => {
                if x > d {
                    d = x;
                }
            },
            None => {
                proof {
                    lemma_stmts_depth_bound(sts@, i as int);
                }
                return None;
            },
        }
        i = i + 1;
    }
    assert(sts@.take(sts@.len() as int) =~= sts@);
    Some(d)
}

/// No statement nests deeper than the statements around it.
proof fn lemma_stmts_depth_bound(sts: Seq<Statement>, i: int)
    requires
        0 <= i < sts.len(),
    ensures
        stmt_depth(sts[i]) <= stmts_depth(sts),
    decreases sts.len(),
{
    if i < sts.len() - 1 {
        assert(sts.drop_last()[i] == sts[i]);
        lemma_stmts_depth_bound(sts.drop_last(), i);
    }
}

/// The deepest nesting among the bodies of `elif` clauses.
fn elifs_depth_of(cs: &Vec<(Expression, Vec<Statement>)>) -> (r: Option<usize>)
    ensures
        match r {
            Some(d) => d == elifs_depth(cs@),
            None => elifs_depth(cs@) > usize::MAX,
        },
    decreases cs, 0nat,
{
    let mut d: usize = 0;
    let mut i: usize = 0;
    assert(cs@.take(0) =~= Seq::<(Expression, Vec<Statement>)>::empty());
    while i < cs.len()
        invariant
            i <= cs@.len(),
            d == elifs_depth(cs@.take(i as int)),
        decreases cs@.len() - i,
    {
        assert(decreases_to!(cs => cs@[i as int]));
        assert(cs@.take(i + 1).drop_last() =~= cs@.take(i as int));
        match stmts_depth_of(&cs[i].1) {
            Some(x) => {
                if x > d {
                    d = x;
                }
            },
            None => {
                proof {
                    lemma_elifs_depth_bound(cs@, i as int);
                }
                return None;
            },
        }
        i = i + 1;
    }
    assert(cs@.take(cs@.len() as int) =~= cs@);
    Some(d)
}

proof fn lemma_elifs_depth_bound(cs: Seq<(Expression, Vec<Statement>)>, i: int)
    requires
        0 <= i < cs.len(),
    ensures
        stmts_depth(cs[i].1@) <= elifs_depth(cs),
    decreases cs.len(),
{
    if i < cs.len() - 1 {
        assert(cs.drop_last()[i] == cs[i]);
        lemma_elifs_depth_bound(cs.drop_last(), i);
    }
}

/// The deepest nesting among the bodies of `match` arms.
fn arms_depth_of(arms: &Vec<MatchArm>) -> (r: Option<usize>)
    ensures
        match r {
            Some(d) => d == arms_depth(arms@),
            None => arms_depth(arms@) > usize::MAX,
        },
    decreases arms, 0nat,
{
    let mut d: usize = 0;
    let mut i: usize = 0;
    assert(arms@.take(0) =~= Seq::<MatchArm>::empty());
    while i < arms.len()
        invariant
            i <= arms@.len(),
            d == arms_depth(arms@.take(i as int)),
        decreases arms@.len() - i,
    {
        assert(decreases_to!(arms => arms@[i as int]));
        assert(arms@.take(i + 1).drop_last() =~= arms@.take(i as int));
        match stmts_depth_of(&arms[i].body) {
            Some(x) => {
                if x > d {
                    d = x;
                }
            },
            None => {
                proof {
                    lemma_arms_depth_bound(arms@, i as int);
                }
                return None;
            },
        }
        i = i + 1;
    }
    assert(arms@.take(arms@.len() as int) =~= arms@);
    Some(d)
}

proof fn lemma_arms_depth_bound(arms: Seq<MatchArm>, i: int)
    requires
        0 <= i < arms.len(),
    ensures
        stmts_depth(arms[i].body@) <= arms_depth(arms),
    decreases arms.len(),
{
    if i < arms.len() - 1 {
        assert(arms.drop_last()[i] == arms[i]);
        lemma_arms_depth_bound(arms.drop_last(), i);
    }
}

/// How many levels the statements of a program nest, or nothing when that
/// does not fit in a `usize`; a program can be formatted exactly when there
/// is a number.
pub fn nesting_depth(program: &Program) -> (r: Option<usize>)
    ensures
        match r {
            Some(d) => d == stmts_depth(program.statements@),
            None => stmts_depth(program.statements@) > usize::MAX,
        },
{
    stmts_depth_of(&program.statements)
}

} // verus!
