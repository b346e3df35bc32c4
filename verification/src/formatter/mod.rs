//! Formatting of Nova programs into consistently styled source code.
pub mod layout;
pub mod exprs;
pub mod depth;

use vstd::prelude::*;
use crate::formatter::exprs::{write_expr, write_exprs, write_pattern, write_texts, write_type, lemma_join_push};
use crate::formatter::layout::{
    annotation_text, arms_depth, arms_text, block_text, decorators_text, elifs_depth, elifs_text,
    expr_text, fields_text, import_text, indent_m, is_definition, join_m, methods_text, param_texts,
    pattern_text, program_text, pub_text, ret_text, stmt_depth, stmt_text, stmts_depth, stmts_text,
    texts, type_text, variants_text, max_nat, doc_text, doc_lines_text,
};
use crate::frontend::lexer::lines_from;
use crate::infer::ast::{
    Decorator, EnumVariant, Expression, Field, ImportItem, MatchArm, Parameter, Program, Statement,
    TraitMethod, TypeExpr,
};

verus! {

/// Format a Nova program into consistently styled source code.
pub fn format(program: &Program) -> (r: String)
    requires
        stmts_depth(program.statements@) <= usize::MAX,
    ensures
        r@ == program_text(program.statements@),
{
    let mut f = Formatter::new();
    f.format_program(program);
    f.output
}

struct Formatter {
    output: String,
    indent: usize,
}

/// Each statement of a sequence nests no deeper than the sequence.
proof fn lemma_stmts_depth(sts: Seq<Statement>)
    ensures
        forall|i: int| 0 <= i < sts.len() ==> #[trigger] stmt_depth(sts[i]) <= stmts_depth(sts),
    decreases sts.len(),
{
    if sts.len() > 0 {
        lemma_stmts_depth(sts.drop_last());
        assert forall|i: int| 0 <= i < sts.len() implies #[trigger] stmt_depth(sts[i]) <= stmts_depth(sts) by {
            if i < sts.len() - 1 {
                assert(sts.drop_last()[i] == sts[i]);
            }
        }
    }
}

/// Each `elif` body nests no deeper than the clauses.
proof fn lemma_elifs_depth(cs: Seq<(Expression, Vec<Statement>)>)
    ensures
        forall|i: int| 0 <= i < cs.len() ==> #[trigger] stmts_depth(cs[i].1@) <= elifs_depth(cs),
    decreases cs.len(),
{
    if cs.len() > 0 {
        lemma_elifs_depth(cs.drop_last());
        assert forall|i: int| 0 <= i < cs.len() implies #[trigger] stmts_depth(cs[i].1@) <= elifs_depth(cs) by {
            if i < cs.len() - 1 {
                assert(cs.drop_last()[i] == cs[i]);
            }
        }
    }
}

/// Each arm body nests no deeper than the arms.
proof fn lemma_arms_depth(arms: Seq<MatchArm>)
    ensures
        forall|i: int| 0 <= i < arms.len() ==> #[trigger] stmts_depth(arms[i].body@) <= arms_depth(arms),
    decreases arms.len(),
{
    if arms.len() > 0 {
        lemma_arms_depth(arms.drop_last());
        assert forall|i: int| 0 <= i < arms.len() implies #[trigger] stmts_depth(arms[i].body@) <= arms_depth(arms) by {
            if i < arms.len() - 1 {
                assert(arms.drop_last()[i] == arms[i]);
            }
        }
    }
}

impl Formatter {
    fn new() -> (r: Self)
        ensures
            r.output@ == Seq::<char>::empty(),
            r.indent == 0,
    {
        Self { output: String::new(), indent: 0 }
    }

    fn write(&mut self, s: &str)
        ensures
            final(self).output@ == old(self).output@ + s@,
            final(self).indent == old(self).indent,
    {
        self.output.append(s);
    }

    fn newline(&mut self)
        ensures
            final(self).output@ == old(self).output@ + "\n"@,
            final(self).indent == old(self).indent,
    {
        self.output.append("\n");
    }

    fn write_indent(&mut self)
        ensures
            final(self).output@ == old(self).output@ + indent_m(old(self).indent as nat),
            final(self).indent == old(self).indent,
    {
        let ghost start = self.output@;
        let mut i: usize = 0;
        while i < self.indent
            invariant
                i <= self.indent,
                self.indent == old(self).indent,
                self.output@ == start + indent_m(i as nat),
            decreases self.indent - i,
        {
            self.output.append("    ");
            assert(self.output@ =~= start + indent_m((i + 1) as nat));
            i = i + 1;
        }
    }

    fn writeln(&mut self, s: &str)
        ensures
            final(self).output@ == old(self).output@ + indent_m(old(self).indent as nat) + s@ + "\n"@,
            final(self).indent == old(self).indent,
    {
        self.write_indent();
        self.output.append(s);
        self.output.append("\n");
    }

    // ── Program ──────────────────────────────────────────────

    fn format_program(&mut self, program: &Program)
        requires
            old(self).indent == 0,
            stmts_depth(program.statements@) <= usize::MAX,
        ensures
            final(self).output@ == old(self).output@ + program_text(program.statements@),
    {
        let ghost start = self.output@;
        let ghost sts = program.statements@;
        proof {
            lemma_stmts_depth(sts);
        }
        let mut prev_was_def = false;
        let mut i: usize = 0;
        assert(sts.take(0) =~= Seq::<Statement>::empty());
        while i < program.statements.len()
            invariant
                i <= sts.len(),
                sts == program.statements@,
                self.indent == 0,
                stmts_depth(sts) <= usize::MAX,
                forall|j: int| 0 <= j < sts.len() ==> #[trigger] stmt_depth(sts[j]) <= stmts_depth(sts),
                self.output@ == start + program_text(sts.take(i as int)),
                i > 0 ==> prev_was_def == is_definition(sts[i - 1]),
                i == 0 ==> !prev_was_def,
            decreases sts.len() - i,
        {
            let stmt = &program.statements[i];
            let is_def = matches!(
                stmt,
                Statement::FunctionDef { .. } | Statement::StructDef { .. } | Statement::EnumDef { .. }
                    | Statement::TraitDef { .. } | Statement::ImplBlock { .. }
            );
            assert(sts.take(i + 1).drop_last() =~= sts.take(i as int));
            assert(sts.take(i + 1).last() == sts[i as int]);
            assert(i > 0 ==> sts.take(i + 1)[i - 1] == sts[i - 1]);
            let ghost blank = (is_definition(sts[i as int]) && i > 0) || (i > 0 && is_definition(sts[i - 1])
                && !is_definition(sts[i as int]));
            assert(is_def == is_definition(sts[i as int]));
            // Blank line between definitions and before first def
            if (is_def && i > 0) || (prev_was_def && !is_def) {
                self.newline();
            }
            assert(self.output@ =~= start + program_text(sts.take(i as int)) + if blank {
                "\n"@
            } else {
                Seq::empty()
            });
            self.format_statement(stmt);
            assert(self.output@ =~= start + program_text(sts.take(i + 1)));
            prev_was_def = is_def;
            i = i + 1;
        }
        assert(sts.take(sts.len() as int) =~= sts);
    }

    // ── Statements ───────────────────────────────────────────

    fn format_statement(&mut self, stmt: &Statement)
        requires
            old(self).indent + stmt_depth(*stmt) <= usize::MAX,
        ensures
            final(self).output@ == old(self).output@ + stmt_text(*stmt, old(self).indent as nat),
            final(self).indent == old(self).indent,
        decreases stmt, 1nat,
    {
        match stmt {
            Statement::FunctionDef { .. } => self.format_function(stmt),
            Statement::StructDef { .. } | Statement::EnumDef { .. } | Statement::TraitDef { .. }
            | Statement::ImplBlock { .. } => self.format_type_def(stmt),
            Statement::If { .. } | Statement::ForLoop { .. } | Statement::WhileLoop { .. }
            | Statement::Match { .. } => self.format_control(stmt),
            _ => self.format_simple(stmt),
        }
    }

    /// A function definition with its decorators, header and body.
    #[verifier::spinoff_prover]
    #[verifier::rlimit(100)]
    fn format_function(&mut self, stmt: &Statement)
        requires
            *stmt is FunctionDef,
            old(self).indent + stmt_depth(*stmt) <= usize::MAX,
        ensures
            final(self).output@ == old(self).output@ + stmt_text(*stmt, old(self).indent as nat),
            final(self).indent == old(self).indent,
        decreases stmt, 0nat,
    {
        let ghost start = self.output@;
        let ghost k = self.indent as nat;
        match stmt {
            Statement::FunctionDef { name, params, return_type, effects, body, decorators, is_pub, doc_comment } => {
                self.write_doc(doc_comment);
                self.write_decorators(decorators);
                self.write_fn_head(name, params, return_type, effects, *is_pub);
                let ghost head = self.output@;
                self.indent = self.indent + 1;
                self.format_block(body);
                self.indent = self.indent - 1;
                assert(self.output@ =~= start + stmt_text(*stmt, k));
            },
            _ => {
                assert(false);
            },
        }
    }

    /// A struct, enum, trait or impl block.
    #[verifier::spinoff_prover]
    #[verifier::rlimit(100)]
    fn format_type_def(&mut self, stmt: &Statement)
        requires
            *stmt is StructDef || *stmt is EnumDef || *stmt is TraitDef || *stmt is ImplBlock,
            old(self).indent + stmt_depth(*stmt) <= usize::MAX,
        ensures
            final(self).output@ == old(self).output@ + stmt_text(*stmt, old(self).indent as nat),
            final(self).indent == old(self).indent,
        decreases stmt, 0nat,
    {
        let ghost start = self.output@;
        let ghost k = self.indent as nat;
        match stmt {
            Statement::StructDef { name, fields, is_pub, doc_comment } => {
                self.write_doc(doc_comment);
                self.write_head("struct ", name, *is_pub);
                self.indent = self.indent + 1;
                self.write_fields(fields);
                self.indent = self.indent - 1;
                assert(self.output@ =~= start + stmt_text(*stmt, k));
            },
            Statement::EnumDef { name, variants, is_pub, doc_comment } => {
                self.write_doc(doc_comment);
                self.write_head("enum ", name, *is_pub);
                self.indent = self.indent + 1;
                self.write_variants(variants);
                self.indent = self.indent - 1;
                assert(self.output@ =~= start + stmt_text(*stmt, k));
            },
            Statement::TraitDef { name, methods, is_pub, doc_comment } => {
                self.write_doc(doc_comment);
                self.write_head("trait ", name, *is_pub);
                self.indent = self.indent + 1;
                self.write_methods(methods);
                self.indent = self.indent - 1;
                assert(self.output@ =~= start + stmt_text(*stmt, k));
            },
            Statement::ImplBlock { trait_name, target_type, methods } => {
                self.write_indent();
                if let Some(trait_n) = trait_name {
                    self.write("impl ");
                    self.write(trait_n.as_str());
                    self.write(" for ");
                    self.write(target_type.as_str());
                    self.write(":\n");
                } else {
                    self.write("impl ");
                    self.write(target_type.as_str());
                    self.write(":\n");
                }
                self.indent = self.indent + 1;
                self.format_stmts(methods);
                self.indent = self.indent - 1;
                assert(self.output@ =~= start + stmt_text(*stmt, k));
            },
            _ => {
                assert(false);
            },
        }
    }

    /// An `if`, loop or `match` with its blocks.
    #[verifier::spinoff_prover]
    #[verifier::rlimit(100)]
    fn format_control(&mut self, stmt: &Statement)
        requires
            *stmt is If || *stmt is ForLoop || *stmt is WhileLoop || *stmt is Match,
            old(self).indent + stmt_depth(*stmt) <= usize::MAX,
        ensures
            final(self).output@ == old(self).output@ + stmt_text(*stmt, old(self).indent as nat),
            final(self).indent == old(self).indent,
        decreases stmt, 0nat,
    {
        let ghost start = self.output@;
        let ghost k = self.indent as nat;
        match stmt {
            Statement::If { condition, body, elif_clauses, else_body } => {
                self.write_indent();
                self.write("if ");
                write_expr(&mut self.output, condition);
                self.write(":\n");
                self.indent = self.indent + 1;
                self.format_block(body);
                self.indent = self.indent - 1;
                self.write_elifs(elif_clauses);
                if let Some(else_stmts) = else_body {
                    self.writeln("else:");
                    self.indent = self.indent + 1;
                    self.format_block(else_stmts);
                    self.indent = self.indent - 1;
                }
                assert(self.output@ =~= start + stmt_text(*stmt, k));
            },
            Statement::ForLoop { variable, iterable, body } => {
                self.write_indent();
                self.write("for ");
                self.write(variable.as_str());
                self.write(" in ");
                write_expr(&mut self.output, iterable);
                self.write(":\n");
                self.indent = self.indent + 1;
                self.format_block(body);
                self.indent = self.indent - 1;
                assert(self.output@ =~= start + stmt_text(*stmt, k));
            },
            Statement::WhileLoop { condition, body } => {
                self.write_indent();
                self.write("while ");
                write_expr(&mut self.output, condition);
                self.write(":\n");
                self.indent = self.indent + 1;
                self.format_block(body);
                self.indent = self.indent - 1;
                assert(self.output@ =~= start + stmt_text(*stmt, k));
            },
            Statement::Match { subject, arms } => {
                self.write_indent();
                self.write("match ");
                write_expr(&mut self.output, subject);
                self.write(":\n");
                self.indent = self.indent + 1;
                self.write_arms(arms);
                self.indent = self.indent - 1;
                assert(self.output@ =~= start + stmt_text(*stmt, k));
            },
            _ => {
                assert(false);
            },
        }
    }

    /// A statement of one line.
    #[verifier::spinoff_prover]
    #[verifier::rlimit(100)]
    fn format_simple(&mut self, stmt: &Statement)
        requires
            !(*stmt is FunctionDef || *stmt is StructDef || *stmt is EnumDef || *stmt is TraitDef || *stmt is ImplBlock || *stmt is If || *stmt is ForLoop || *stmt is WhileLoop || *stmt is Match),
            old(self).indent + stmt_depth(*stmt) <= usize::MAX,
        ensures
            final(self).output@ == old(self).output@ + stmt_text(*stmt, old(self).indent as nat),
            final(self).indent == old(self).indent,
        decreases stmt, 0nat,
    {
        let ghost start = self.output@;
        let ghost k = self.indent as nat;
        match stmt {
            Statement::LetBinding { name, type_annotation, value, mutable } => {
                self.write_indent();
                if *mutable {
                    self.write("let mut ");
                } else {
                    self.write("let ");
                }
                self.write(name.as_str());
                if let Some(ty) = type_annotation {
                    self.write(": ");
                    write_type(&mut self.output, ty);
                }
                self.write(" = ");
                write_expr(&mut self.output, value);
                self.newline();
                assert(self.output@ =~= start + stmt_text(*stmt, k));
            },
            Statement::ConstBinding { name, type_annotation, value } => {
                self.write_indent();
                self.write("const ");
                self.write(name.as_str());
                if let Some(ty) = type_annotation {
                    self.write(": ");
                    write_type(&mut self.output, ty);
                }
                self.write(" = ");
                write_expr(&mut self.output, value);
                self.newline();
                assert(self.output@ =~= start + stmt_text(*stmt, k));
            },
            Statement::Assignment { target, value } => {
                self.write_indent();
                write_expr(&mut self.output, target);
                self.write(" = ");
                write_expr(&mut self.output, value);
                self.newline();
                assert(self.output@ =~= start + stmt_text(*stmt, k));
            },
            Statement::Return(expr) => {
                self.write_indent();
                if let Some(e) = expr {
                    self.write("return ");
                    write_expr(&mut self.output, e);
                } else {
                    self.write("return");
                }
                self.newline();
                assert(self.output@ =~= start + stmt_text(*stmt, k));
            },
            Statement::Require(expr) => {
                self.write_indent();
                self.write("require ");
                write_expr(&mut self.output, expr);
                self.newline();
                assert(self.output@ =~= start + stmt_text(*stmt, k));
            },
            Statement::Ensure(expr) => {
                self.write_indent();
                self.write("ensure ");
                write_expr(&mut self.output, expr);
                self.newline();
                assert(self.output@ =~= start + stmt_text(*stmt, k));
            },
            Statement::Break => self.writeln("break"),
            Statement::Continue => self.writeln("continue"),
            Statement::Expression(expr) => {
                self.write_indent();
                write_expr(&mut self.output, expr);
                self.newline();
                assert(self.output@ =~= start + stmt_text(*stmt, k));
            },
            Statement::Import { path, items } => {
                self.write_indent();
                if let Some(items) = items {
                    self.write("from ");
                    write_texts(&mut self.output, path, ".");
                    self.write(" import ");
                    self.write_item_names(items);
                } else {
                    self.write("import ");
                    write_texts(&mut self.output, path, ".");
                }
                self.newline();
                assert(self.output@ =~= start + stmt_text(*stmt, k));
            },
            Statement::ForeignImport { path, lang, .. } => {
                self.write_indent();
                self.write("import foreign(\"");
                self.write(path.as_str());
                self.write("\", lang: \"");
                self.write(lang.as_str());
                self.write("\")");
                self.newline();
                assert(self.output@ =~= start + stmt_text(*stmt, k));
            },
            _ => {
                assert(false);
            },
        }
    }

    /// Statements one after another.
    fn format_stmts(&mut self, stmts: &Vec<Statement>)
        requires
            old(self).indent + stmts_depth(stmts@) <= usize::MAX,
        ensures
            final(self).output@ == old(self).output@ + stmts_text(stmts@, old(self).indent as nat),
            final(self).indent == old(self).indent,
        decreases stmts, 0nat,
    {
        let ghost start = self.output@;
        let ghost k = self.indent as nat;
        proof {
            lemma_stmts_depth(stmts@);
        }
        let mut i: usize = 0;
        assert(stmts@.take(0) =~= Seq::<Statement>::empty());
        while i < stmts.len()
            invariant
                i <= stmts@.len(),
                self.indent == old(self).indent,
                k == self.indent as nat,
                self.indent + stmts_depth(stmts@) <= usize::MAX,
                forall|j: int| 0 <= j < stmts@.len() ==> #[trigger] stmt_depth(stmts@[j]) <= stmts_depth(stmts@),
                self.output@ == start + stmts_text(stmts@.take(i as int), k),
            decreases stmts@.len() - i,
        {
            assert(decreases_to!(stmts => stmts@[i as int]));
            assert(stmts@.take(i + 1).drop_last() =~= stmts@.take(i as int));
            self.format_statement(&stmts[i]);
            assert(self.output@ =~= start + stmts_text(stmts@.take(i + 1), k));
            i = i + 1;
        }
        assert(stmts@.take(stmts@.len() as int) =~= stmts@);
    }

    /// A block: its statements, or `pass` when it has none.
    fn format_block(&mut self, block: &Vec<Statement>)
        requires
            old(self).indent + stmts_depth(block@) <= usize::MAX,
        ensures
            final(self).output@ == old(self).output@ + block_text(block@, old(self).indent as nat),
            final(self).indent == old(self).indent,
        decreases block, 1nat,
    {
        if block.len() == 0 {
            self.writeln("pass");
        } else {
            self.format_stmts(block);
        }
    }

    /// The `elif` clauses of an `if`.
    fn write_elifs(&mut self, clauses: &Vec<(Expression, Vec<Statement>)>)
        requires
            old(self).indent + 1 + elifs_depth(clauses@) <= usize::MAX,
        ensures
            final(self).output@ == old(self).output@ + elifs_text(clauses@, old(self).indent as nat),
            final(self).indent == old(self).indent,
        decreases clauses, 0nat,
    {
        let ghost start = self.output@;
        let ghost k = self.indent as nat;
        proof {
            lemma_elifs_depth(clauses@);
        }
        let mut i: usize = 0;
        assert(clauses@.take(0) =~= Seq::<(Expression, Vec<Statement>)>::empty());
        while i < clauses.len()
            invariant
                i <= clauses@.len(),
                self.indent == old(self).indent,
                k == self.indent as nat,
                self.indent + 1 + elifs_depth(clauses@) <= usize::MAX,
                forall|j: int| 0 <= j < clauses@.len() ==> #[trigger] stmts_depth(clauses@[j].1@) <= elifs_depth(clauses@),
                self.output@ == start + elifs_text(clauses@.take(i as int), k),
            decreases clauses@.len() - i,
        {
            assert(decreases_to!(clauses => clauses@[i as int]));
            assert(decreases_to!(clauses@[i as int] => clauses@[i as int].1));
            assert(clauses@.take(i + 1).drop_last() =~= clauses@.take(i as int));
            assert(stmts_depth(clauses@[i as int].1@) <= elifs_depth(clauses@));
            self.write_indent();
            self.write("elif ");
            write_expr(&mut self.output, &clauses[i].0);
            self.write(":\n");
            self.indent = self.indent + 1;
            self.format_block(&clauses[i].1);
            self.indent = self.indent - 1;
            assert(self.output@ =~= start + elifs_text(clauses@.take(i + 1), k));
            i = i + 1;
        }
        assert(clauses@.take(clauses@.len() as int) =~= clauses@);
    }

    /// The arms of a `match`, each body one level deeper.
    fn write_arms(&mut self, arms: &Vec<MatchArm>)
        requires
            old(self).indent + 1 + arms_depth(arms@) <= usize::MAX,
        ensures
            final(self).output@ == old(self).output@ + arms_text(arms@, old(self).indent as nat),
            final(self).indent == old(self).indent,
        decreases arms, 0nat,
    {
        let ghost start = self.output@;
        let ghost k = self.indent as nat;
        proof {
            lemma_arms_depth(arms@);
        }
        let mut i: usize = 0;
        assert(arms@.take(0) =~= Seq::<MatchArm>::empty());
        while i < arms.len()
            invariant
                i <= arms@.len(),
                self.indent == old(self).indent,
                k == self.indent as nat,
                self.indent + 1 + arms_depth(arms@) <= usize::MAX,
                forall|j: int| 0 <= j < arms@.len() ==> #[trigger] stmts_depth(arms@[j].body@) <= arms_depth(arms@),
                self.output@ == start + arms_text(arms@.take(i as int), k),
            decreases arms@.len() - i,
        {
            assert(decreases_to!(arms => arms@[i as int]));
            assert(decreases_to!(arms@[i as int] => arms@[i as int].body));
            assert(arms@.take(i + 1).drop_last() =~= arms@.take(i as int));
            assert(stmts_depth(arms@[i as int].body@) <= arms_depth(arms@));
            self.write_indent();
            self.write("case ");
            write_pattern(&mut self.output, &arms[i].pattern);
            self.write(":\n");
            self.indent = self.indent + 1;
            self.format_block(&arms[i].body);
            self.indent = self.indent - 1;
            assert(self.output@ =~= start + arms_text(arms@.take(i + 1), k));
            i = i + 1;
        }
        assert(arms@.take(arms@.len() as int) =~= arms@);
    }

    /// The header line of a function.
    #[verifier::spinoff_prover]
    #[verifier::rlimit(60)]
    fn write_fn_head(
        &mut self,
        name: &String,
        params: &Vec<Parameter>,
        return_type: &Option<TypeExpr>,
        effects: &Vec<String>,
        is_pub: bool,
    )
        ensures
            final(self).output@ == old(self).output@ + crate::formatter::layout::fn_head_text(
                name@,
                params@,
                *return_type,
                effects@,
                is_pub,
                old(self).indent as nat,
            ),
            final(self).indent == old(self).indent,
    {
        let ghost start = self.output@;
        self.write_indent();
        if is_pub {
            self.write("pub ");
        }
        self.write("fn ");
        self.write(name.as_str());
        self.write("(");
        self.write_params(params);
        self.write(")");
        let ghost mid = self.output@;
        assert(mid =~= start + indent_m(self.indent as nat) + pub_text(is_pub) + "fn "@ + name@ + "("@ + join_m(
            param_texts(params@),
            ", "@,
        ) + ")"@);
        if let Some(ret) = return_type {
            self.write(" -> ");
            write_type(&mut self.output, ret);
        }
        if effects.len() > 0 {
            self.write(" [");
            write_texts(&mut self.output, effects, ", ");
            self.write("]");
        }
        self.write(":\n");
        assert(self.output@ =~= start + crate::formatter::layout::fn_head_text(
            name@,
            params@,
            *return_type,
            effects@,
            is_pub,
            self.indent as nat,
        ));
    }

    /// The header line of a struct, enum or trait.
    fn write_head(&mut self, keyword: &str, name: &String, is_pub: bool)
        ensures
            final(self).output@ == old(self).output@ + crate::formatter::layout::head_text(
                keyword@,
                name@,
                is_pub,
                old(self).indent as nat,
            ),
            final(self).indent == old(self).indent,
    {
        let ghost start = self.output@;
        self.write_indent();
        if is_pub {
            self.write("pub ");
        }
        self.write(keyword);
        self.write(name.as_str());
        self.write(":\n");
        assert(self.output@ =~= start + crate::formatter::layout::head_text(keyword@, name@, is_pub, self.indent as nat));
    }

    /// The doc comment of a definition, one `## ` line per line.
    fn write_doc(&mut self, doc: &Option<String>)
        ensures
            final(self).output@ == old(self).output@ + doc_text(*doc, old(self).indent as nat),
            final(self).indent == old(self).indent,
    {
        let ghost start = self.output@;
        let ghost k = self.indent as nat;
        if let Some(d) = doc {
            let cs = crate::syntax::lexer::chars_of(d.as_str());
            let ranges = crate::frontend::lexer::line_ranges(&cs);
            let ghost ls = lines_from(cs@, 0);
            let mut i: usize = 0;
            assert(ls.take(0) =~= Seq::<Seq<char>>::empty());
            while i < ranges.len()
                invariant
                    i <= ranges@.len(),
                    cs@ == d@,
                    ls == lines_from(cs@, 0),
                    crate::frontend::lexer::ranges_view(cs@, ranges@) == ls,
                    forall|j: int| 0 <= j < ranges@.len() ==> #[trigger] ranges@[j].0 <= ranges@[j].1 <= cs@.len(),
                    self.indent == old(self).indent,
                    k == self.indent as nat,
                    self.output@ == start + doc_lines_text(ls.take(i as int), k),
                decreases ranges@.len() - i,
            {
                let (a, b) = ranges[i];
                assert(ls.take(i + 1).drop_last() =~= ls.take(i as int));
                assert(ls.take(i + 1).last() == ls[i as int]);
                self.write_indent();
                self.write("## ");
                self.write(d.as_str().substring_char(a, b));
                self.newline();
                assert(self.output@ =~= start + doc_lines_text(ls.take(i + 1), k));
                i = i + 1;
            }
            assert(ls.take(ranges@.len() as int) =~= ls);
        } else {
            assert(self.output@ =~= start + doc_text(*doc, k));
        }
    }

    /// The decorator lines of a function.
    fn write_decorators(&mut self, decorators: &Vec<Decorator>)
        ensures
            final(self).output@ == old(self).output@ + decorators_text(decorators@, old(self).indent as nat),
            final(self).indent == old(self).indent,
    {
        let ghost start = self.output@;
        let ghost k = self.indent as nat;
        let mut i: usize = 0;
        assert(decorators@.take(0) =~= Seq::<Decorator>::empty());
        while i < decorators.len()
            invariant
                i <= decorators@.len(),
                self.indent == old(self).indent,
                k == self.indent as nat,
                self.output@ == start + decorators_text(decorators@.take(i as int), k),
            decreases decorators@.len() - i,
        {
            assert(decorators@.take(i + 1).drop_last() =~= decorators@.take(i as int));
            let dec = &decorators[i];
            self.write_indent();
            self.write("@");
            self.write(dec.name.as_str());
            if dec.args.len() > 0 {
                self.write("(");
                self.write_expr_list(&dec.args);
                self.write(")");
            }
            self.newline();
            assert(self.output@ =~= start + decorators_text(decorators@.take(i + 1), k));
            i = i + 1;
        }
        assert(decorators@.take(decorators@.len() as int) =~= decorators@);
    }

    /// Expressions separated by commas.
    fn write_expr_list(&mut self, exprs: &Vec<Expression>)
        ensures
            final(self).output@ == old(self).output@ + join_m(crate::formatter::layout::expr_texts(exprs@), ", "@),
            final(self).indent == old(self).indent,
    {
        write_exprs(&mut self.output, exprs);
    }

    /// Parameters written `name: T`, separated by commas.
    fn write_params(&mut self, params: &Vec<Parameter>)
        ensures
            final(self).output@ == old(self).output@ + join_m(param_texts(params@), ", "@),
            final(self).indent == old(self).indent,
    {
        let ghost start = self.output@;
        let mut i: usize = 0;
        assert(param_texts(params@.take(0)) =~= Seq::<Seq<char>>::empty());
        while i < params.len()
            invariant
                i <= params@.len(),
                self.indent == old(self).indent,
                self.output@ == start + join_m(param_texts(params@.take(i as int)), ", "@),
            decreases params@.len() - i,
        {
            let ghost item = params@[i as int].name@ + ": "@ + type_text(params@[i as int].type_annotation);
            proof {
                lemma_join_push(param_texts(params@.take(i as int)), item, ", "@);
                assert(param_texts(params@.take(i + 1)) =~= param_texts(params@.take(i as int)).push(item));
            }
            if i > 0 {
                self.write(", ");
            }
            self.write(params[i].name.as_str());
            self.write(": ");
            write_type(&mut self.output, &params[i].type_annotation);
            assert(self.output@ =~= start + join_m(param_texts(params@.take(i + 1)), ", "@));
            i = i + 1;
        }
        assert(params@.take(params@.len() as int) =~= params@);
    }

    /// The field lines of a struct.
    fn write_fields(&mut self, fields: &Vec<Field>)
        ensures
            final(self).output@ == old(self).output@ + fields_text(fields@, old(self).indent as nat),
            final(self).indent == old(self).indent,
    {
        let ghost start = self.output@;
        let ghost k = self.indent as nat;
        let mut i: usize = 0;
        assert(fields@.take(0) =~= Seq::<Field>::empty());
        while i < fields.len()
            invariant
                i <= fields@.len(),
                self.indent == old(self).indent,
                k == self.indent as nat,
                self.output@ == start + fields_text(fields@.take(i as int), k),
            decreases fields@.len() - i,
        {
            assert(fields@.take(i + 1).drop_last() =~= fields@.take(i as int));
            let field = &fields[i];
            self.write_indent();
            if field.is_pub {
                self.write("pub ");
            }
            self.write("let ");
            self.write(field.name.as_str());
            self.write(": ");
            write_type(&mut self.output, &field.type_annotation);
            if let Some(default) = &field.default {
                self.write(" = ");
                write_expr(&mut self.output, default);
            }
            self.newline();
            assert(self.output@ =~= start + fields_text(fields@.take(i + 1), k));
            i = i + 1;
        }
        assert(fields@.take(fields@.len() as int) =~= fields@);
    }

    /// The variant lines of an enum.
    fn write_variants(&mut self, variants: &Vec<EnumVariant>)
        ensures
            final(self).output@ == old(self).output@ + variants_text(variants@, old(self).indent as nat),
            final(self).indent == old(self).indent,
    {
        let ghost start = self.output@;
        let ghost k = self.indent as nat;
        let mut i: usize = 0;
        assert(variants@.take(0) =~= Seq::<EnumVariant>::empty());
        while i < variants.len()
            invariant
                i <= variants@.len(),
                self.indent == old(self).indent,
                k == self.indent as nat,
                self.output@ == start + variants_text(variants@.take(i as int), k),
            decreases variants@.len() - i,
        {
            assert(variants@.take(i + 1).drop_last() =~= variants@.take(i as int));
            let variant = &variants[i];
            self.write_indent();
            self.write("case ");
            self.write(variant.name.as_str());
            if let Some(fields) = &variant.fields {
                self.write("(");
                crate::formatter::exprs::write_types(&mut self.output, fields);
                self.write(")");
            }
            self.newline();
            assert(self.output@ =~= start + variants_text(variants@.take(i + 1), k));
            i = i + 1;
        }
        assert(variants@.take(variants@.len() as int) =~= variants@);
    }

    /// The method lines of a trait.
    fn write_methods(&mut self, methods: &Vec<TraitMethod>)
        ensures
            final(self).output@ == old(self).output@ + methods_text(methods@, old(self).indent as nat),
            final(self).indent == old(self).indent,
    {
        let ghost start = self.output@;
        let ghost k = self.indent as nat;
        let mut i: usize = 0;
        assert(methods@.take(0) =~= Seq::<TraitMethod>::empty());
        while i < methods.len()
            invariant
                i <= methods@.len(),
                self.indent == old(self).indent,
                k == self.indent as nat,
                self.output@ == start + methods_text(methods@.take(i as int), k),
            decreases methods@.len() - i,
        {
            assert(methods@.take(i + 1).drop_last() =~= methods@.take(i as int));
            let method = &methods[i];
            self.write_indent();
            self.write("fn ");
            self.write(method.name.as_str());
            self.write("(");
            self.write_params(&method.params);
            self.write(")");
            if let Some(ret) = &method.return_type {
                self.write(" -> ");
                write_type(&mut self.output, ret);
            }
            self.newline();
            assert(self.output@ =~= start + methods_text(methods@.take(i + 1), k));
            i = i + 1;
        }
        assert(methods@.take(methods@.len() as int) =~= methods@);
    }

    /// The names of imported items, separated by commas.
    fn write_item_names(&mut self, items: &Vec<ImportItem>)
        ensures
            final(self).output@ == old(self).output@ + join_m(
                Seq::new(items@.len(), |i: int| items@[i].name@),
                ", "@,
            ),
            final(self).indent == old(self).indent,
    {
        let ghost start = self.output@;
        let ghost names = Seq::new(items@.len(), |i: int| items@[i].name@);
        let mut i: usize = 0;
        assert(names.take(0) =~= Seq::<Seq<char>>::empty());
        while i < items.len()
            invariant
                i <= items@.len(),
                names == Seq::new(items@.len(), |i: int| items@[i].name@),
                self.indent == old(self).indent,
                self.output@ == start + join_m(names.take(i as int), ", "@),
            decreases items@.len() - i,
        {
            proof {
                lemma_join_push(names.take(i as int), names[i as int], ", "@);
                assert(names.take(i + 1) =~= names.take(i as int).push(names[i as int]));
            }
            if i > 0 {
                self.write(", ");
            }
            self.write(items[i].name.as_str());
            i = i + 1;
        }
        assert(names.take(names.len() as int) =~= names);
    }

    // ── Expressions, types and patterns ──────────────────────

    /// An expression as text.
    fn format_expr(&self, expr: &Expression) -> (r: String)
        ensures
            r@ == expr_text(*expr),
    {
        let mut out = String::new();
        write_expr(&mut out, expr);
        assert(out@ =~= expr_text(*expr));
        out
    }

    /// A type annotation as text.
    fn format_type(&self, ty: &TypeExpr) -> (r: String)
        ensures
            r@ == type_text(*ty),
    {
        let mut out = String::new();
        write_type(&mut out, ty);
        assert(out@ =~= type_text(*ty));
        out
    }

    /// A pattern as text.
    fn format_pattern(&self, pattern: &crate::infer::ast::Pattern) -> (r: String)
        ensures
            r@ == pattern_text(*pattern),
    {
        let mut out = String::new();
        write_pattern(&mut out, pattern);
        assert(out@ =~= pattern_text(*pattern));
        out
    }
}

} // verus!
