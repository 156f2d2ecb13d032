//! The mutable build-time context of one program's lowering, and the
//! per-node emitters.

use vstd::prelude::*;

use cranelift::object::ObjectModule;
use cranelift::prelude::{FunctionBuilder, Value, Variable};

use crate::ast::{Expression, PrintStatement, Program, Statement, VarStatement};
use crate::backend;
use crate::backend::{block_open, i64_vals, slot_count, slot_i64, slot_id, trace};
use crate::ir::{
    expr_fail_instrs, expr_fail_name, expr_instrs, expr_resolved, lemma_program_instr_count,
    lemma_stmts_fail, lemma_stmts_snoc, program_count, program_instrs, program_ok,
    stmt_ctr_after, stmt_env_after, stmt_fail_instrs, stmt_fail_name, stmt_instrs,
    stmt_resolved, stmts_ctr_after, stmts_env_after, stmts_fail_instrs, stmts_fail_name,
    stmts_instrs, stmts_ok, Instr, SlotEnv,
};

verus! {

#[verifier::external_type_specification]
#[verifier::external_body]
pub struct ExObjectModule(ObjectModule);

/// The table `t` as a map from name to slot identifier: the last binding for
/// a name wins.
pub open spec fn table_env(t: Seq<(String, Variable)>) -> SlotEnv
    decreases t.len(),
{
    if t.len() == 0 {
        Map::empty()
    } else {
        table_env(t.drop_last()).insert(t.last().0@, slot_id(t.last().1))
    }
}

/// The lowering of one program names a slot it never declared. Carries the
/// offending name.
#[derive(Clone, Debug, PartialEq)]
pub enum EmitError {
    UnresolvedVariable(String),
}

/// The mutable state threaded through one program's lowering: the module
/// handle, the function builder, the name-to-slot symbol table, and the
/// strictly increasing slot counter.
pub struct EmitContext<'a> {
    pub module: &'a mut ObjectModule,
    pub builder: FunctionBuilder<'a>,
    pub variables: Vec<(String, Variable)>,
    pub index: usize,
}

impl<'a> EmitContext<'a> {
    /// The symbol table as a map: each declared name to the slot of its most
    /// recent declaration.
    pub open spec fn env(&self) -> SlotEnv {
        table_env(self.variables@)
    }

    /// The slot counter: how many slots were handed out so far.
    pub open spec fn ctr(&self) -> nat {
        self.index as nat
    }

    /// The context is consistent with its builder: the counter matches the
    /// builder's variable count, and every table entry holds a declared
    /// 64-bit slot below the counter.
    pub open spec fn wf(&self) -> bool {
        &&& slot_count(&self.builder) == self.index as nat
        &&& forall|i: int|
            0 <= i < self.variables@.len() ==> slot_id(#[trigger] self.variables@[i].1)
                < self.index as nat && slot_i64(&self.builder, self.variables@[i].1)
    }

    /// Binds a fresh context to a module and a builder for a freshly opened
    /// function, through which no variable has been declared yet.
    pub fn new(module: &'a mut ObjectModule, builder: FunctionBuilder<'a>) -> (r: Self)
        requires
            slot_count(&builder) == 0,
        ensures
            r.wf(),
            r.env() == Map::<Seq<char>, nat>::empty(),
            r.ctr() == 0,
            r.builder == builder,
    {
        Self { module, builder, variables: Vec::new(), index: 0 }
    }

    /// Allocates a fresh, never reused slot and binds `name` to it,
    /// overwriting any prior binding for that name; bindings for other names
    /// are untouched. Registers the slot's 64-bit storage type with the
    /// backend and returns the slot.
    pub fn declare_var(&mut self, name: &str) -> (var: Variable)
        requires
            old(self).wf(),
            old(self).ctr() < usize::MAX,
        ensures
            final(self).wf(),
            slot_id(var) == old(self).ctr(),
            slot_i64(&final(self).builder, var),
            final(self).ctr() == old(self).ctr() + 1,
            final(self).env() == old(self).env().insert(name@, old(self).ctr()),
            trace(&final(self).builder) == trace(&old(self).builder),
            block_count_same(&old(self).builder, &final(self).builder),
            block_open(&final(self).builder) == block_open(&old(self).builder),
            backend::fresh_blocks(&final(self).builder) == backend::fresh_blocks(
                &old(self).builder,
            ),
            i64_vals(&final(self).builder) == i64_vals(&old(self).builder),
    {
        let var = backend::new_slot(&mut self.builder);
        self.variables.push((name.to_owned(), var));
        self.index = self.index + 1;
        proof {
            assert(self.variables@.drop_last() =~= old(self).variables@);
            assert(self.env() =~= old(self).env().insert(name@, old(self).ctr()));
        }
        var
    }

    /// Pure lookup: the slot bound by the most recent declaration of `name`,
    /// or nothing if `name` was never declared.
    pub fn get_variable(&self, name: &str) -> (r: Option<Variable>)
        requires
            self.wf(),
        ensures
            match r {
                Some(var) => self.env().contains_key(name@) && slot_id(var) == self.env()[name@]
                    && slot_i64(&self.builder, var),
                None => !self.env().contains_key(name@),
            },
    {
        let key: String = name.to_owned();
        let n = self.variables.len();
        let mut i: usize = n;
        proof {
            assert(self.variables@.take(n as int) =~= self.variables@);
        }
        while i > 0
            invariant
                i <= n,
                n == self.variables@.len(),
                self.wf(),
                key@ == name@,
                table_env(self.variables@).contains_key(name@) == table_env(
                    self.variables@.take(i as int),
                ).contains_key(name@),
                table_env(self.variables@).contains_key(name@) ==> table_env(self.variables@)[name@]
                    == table_env(self.variables@.take(i as int))[name@],
            decreases i,
        {
            i = i - 1;
            let entry_name: &String = &self.variables[i].0;
            proof {
                assert(self.variables@.take(i as int + 1).last() == self.variables@[i as int]);
                assert(self.variables@.take(i as int + 1).drop_last() =~= self.variables@.take(
                    i as int,
                ));
            }
            if *entry_name == key {
                let var = self.variables[i].1;
                return Some(var);
            }
        }
        proof {
            assert(table_env(self.variables@.take(0)) =~= Map::<Seq<char>, nat>::empty());
        }
        None
    }
}

/// Both builders have handed out the same number of blocks.
pub open spec fn block_count_same(b1: &FunctionBuilder, b2: &FunctionBuilder) -> bool {
    backend::block_count(b2) == backend::block_count(b1)
}

/// What lowering one expression guarantees: the table and counter stand
/// untouched, no block is created or closed, and either every reference
/// resolves and exactly the expression's actions are appended, ending in a
/// 64-bit result value — or the first unresolved name comes back as the
/// error, with only the actions before it appended.
pub open spec fn expr_emit_ens(
    e: Expression,
    pre: EmitContext,
    post: EmitContext,
    r: Result<Value, EmitError>,
) -> bool {
    &&& post.env() == pre.env()
    &&& post.ctr() == pre.ctr()
    &&& block_count_same(&pre.builder, &post.builder)
    &&& block_open(&post.builder)
    &&& i64_vals(&pre.builder).subset_of(i64_vals(&post.builder))
    &&& match r {
        Result::Ok(v) => {
            &&& expr_resolved(e, pre.env())
            &&& trace(&post.builder) == trace(&pre.builder) + expr_instrs(e, pre.env())
            &&& i64_vals(&post.builder).contains(v)
        },
        Result::Err(err) => {
            &&& !expr_resolved(e, pre.env())
            &&& (err matches EmitError::UnresolvedVariable(n) && n@ == expr_fail_name(
                e,
                pre.env(),
            ))
            &&& trace(&post.builder) == trace(&pre.builder) + expr_fail_instrs(e, pre.env())
        },
    }
}

/// What lowering one statement guarantees: no block is created or closed,
/// and either its references resolve, exactly its actions are appended, the
/// table and counter advance by the statement, and its expression's 64-bit
/// value comes back — or the first unresolved name comes back as the error,
/// only the actions before it are appended, and table and counter stand
/// untouched.
pub open spec fn stmt_emit_ens(
    s: Statement,
    pre: EmitContext,
    post: EmitContext,
    r: Result<Value, EmitError>,
) -> bool {
    &&& block_count_same(&pre.builder, &post.builder)
    &&& block_open(&post.builder)
    &&& i64_vals(&pre.builder).subset_of(i64_vals(&post.builder))
    &&& match r {
        Result::Ok(v) => {
            &&& stmt_resolved(s, pre.env())
            &&& trace(&post.builder) == trace(&pre.builder) + stmt_instrs(s, pre.env(), pre.ctr())
            &&& post.env() == stmt_env_after(s, pre.env(), pre.ctr())
            &&& post.ctr() == stmt_ctr_after(s, pre.ctr())
            &&& i64_vals(&post.builder).contains(v)
        },
        Result::Err(err) => {
            &&& !stmt_resolved(s, pre.env())
            &&& (err matches EmitError::UnresolvedVariable(n) && n@ == stmt_fail_name(
                s,
                pre.env(),
            ))
            &&& trace(&post.builder) == trace(&pre.builder) + stmt_fail_instrs(s, pre.env())
            &&& post.env() == pre.env()
            &&& post.ctr() == pre.ctr()
        },
    }
}

/// What lowering a whole program guarantees: exactly one block is created
/// and made the entry; either every statement resolves in order, the block
/// is closed by the terminating return, and exactly the program's actions
/// are appended — or emission stops at the first unresolved name, which
/// comes back as the error, with only the actions before it appended and
/// the block left unterminated.
pub open spec fn prog_emit_ens(
    p: Program,
    pre: EmitContext,
    post: EmitContext,
    r: Result<Value, EmitError>,
) -> bool {
    &&& backend::block_count(&post.builder) == backend::block_count(&pre.builder) + 1
    &&& match r {
        Result::Ok(_) => {
            &&& stmts_ok(p.0@, pre.env(), pre.ctr())
            &&& trace(&post.builder) == trace(&pre.builder) + stmts_instrs(
                p.0@,
                pre.env(),
                pre.ctr(),
            ) + seq![Instr::Ret]
            &&& !block_open(&post.builder)
            &&& post.env() == stmts_env_after(p.0@, pre.env(), pre.ctr())
            &&& post.ctr() == stmts_ctr_after(p.0@, pre.ctr())
        },
        Result::Err(err) => {
            &&& !stmts_ok(p.0@, pre.env(), pre.ctr())
            &&& (err matches EmitError::UnresolvedVariable(n) && n@ == stmts_fail_name(
                p.0@,
                pre.env(),
                pre.ctr(),
            ))
            &&& trace(&post.builder) == trace(&pre.builder) + stmts_fail_instrs(
                p.0@,
                pre.env(),
                pre.ctr(),
            )
            &&& block_open(&post.builder)
        },
    }
}

/// A program whose references all resolve lowers through a fresh context to
/// completion: the result is no error, exactly one basic block is created
/// and closed by the terminating return, and the recorded actions are
/// exactly the program's — as many as the sum, over all statements, of the
/// actions each statement and its sub-expressions contribute, plus the one
/// terminating return.
pub proof fn lemma_fresh_emission_completes(
    p: Program,
    pre: EmitContext,
    post: EmitContext,
    r: Result<Value, EmitError>,
)
    requires
        prog_emit_ens(p, pre, post, r),
        program_ok(p),
        pre.env() == Map::<Seq<char>, nat>::empty(),
        pre.ctr() == 0,
        trace(&pre.builder) == Seq::<Instr>::empty(),
        backend::block_count(&pre.builder) == 0,
    ensures
        r is Ok,
        trace(&post.builder) == program_instrs(p),
        trace(&post.builder).len() == program_count(p),
        backend::block_count(&post.builder) == 1,
        !block_open(&post.builder),
{
    assert(r is Ok);
    assert(trace(&post.builder) =~= program_instrs(p));
    lemma_program_instr_count(p);
}

/// Lowering the identical program through two independent contexts that
/// start from equal symbol tables and counters appends identical action
/// sequences: emission is reproducible, operation kinds, operand order and
/// slot relationships included.
pub proof fn lemma_emission_reproducible(
    p: Program,
    pre1: EmitContext,
    post1: EmitContext,
    r1: Result<Value, EmitError>,
    pre2: EmitContext,
    post2: EmitContext,
    r2: Result<Value, EmitError>,
)
    requires
        prog_emit_ens(p, pre1, post1, r1),
        prog_emit_ens(p, pre2, post2, r2),
        pre1.env() == pre2.env(),
        pre1.ctr() == pre2.ctr(),
        r1 is Ok,
        r2 is Ok,
        trace(&pre1.builder) == Seq::<Instr>::empty(),
        trace(&pre2.builder) == Seq::<Instr>::empty(),
    ensures
        trace(&post1.builder) == trace(&post2.builder),
{
    assert(trace(&post1.builder) =~= trace(&post2.builder));
}

/// Lowering an abstract syntax node into the context, yielding a backend
/// value handle, or the name of the first reference to an undeclared
/// variable.
pub trait Emitter {
    /// What lowering `self` asks of the context.
    spec fn emit_req(&self, ctx: EmitContext) -> bool;

    /// What lowering `self` guarantees of the context and the result.
    spec fn emit_ens(&self, pre: EmitContext, post: EmitContext, r: Result<
        Value,
        EmitError,
    >) -> bool;

    fn emit(&self, ctx: &mut EmitContext) -> (r: Result<Value, EmitError>)
        requires
            old(ctx).wf(),
            self.emit_req(*old(ctx)),
        ensures
            final(ctx).wf(),
            self.emit_ens(*old(ctx), *final(ctx), r),
    ;
}

/// Lowers `e` bottom-up: a literal loads its constant, a reference reads its
/// slot or fails on an undeclared name, a binary operation lowers its left
/// operand, then its right, then its operator's instruction.
pub fn emit_expression(e: &Expression, ctx: &mut EmitContext) -> (r: Result<Value, EmitError>)
    requires
        old(ctx).wf(),
        block_open(&old(ctx).builder),
    ensures
        final(ctx).wf(),
        expr_emit_ens(*e, *old(ctx), *final(ctx), r),
    decreases e,
{
    match e {
        Expression::Integer(n) => {
            let v = backend::const_i64(&mut ctx.builder, *n);
            proof {
                assert(trace(&ctx.builder) =~= trace(&old(ctx).builder) + expr_instrs(
                    *e,
                    old(ctx).env(),
                ));
            }
            Ok(v)
        },
        Expression::Variable(name) => {
            match ctx.get_variable(name.as_str()) {
                Some(var) => {
                    let v = backend::read_slot(&mut ctx.builder, var);
                    proof {
                        assert(trace(&ctx.builder) =~= trace(&old(ctx).builder) + expr_instrs(
                            *e,
                            old(ctx).env(),
                        ));
                    }
                    Ok(v)
                },
                None => {
                    proof {
                        assert(trace(&ctx.builder) =~= trace(&old(ctx).builder) + expr_fail_instrs(
                            *e,
                            old(ctx).env(),
                        ));
                    }
                    Err(EmitError::UnresolvedVariable(name.clone()))
                },
            }
        },
        Expression::BinaryOperation { lhs, operator, rhs } => {
            let lv = match emit_expression(&**lhs, ctx) {
                Ok(v) => v,
                Err(err) => {
                    return Err(err);
                },
            };
            let rv = match emit_expression(&**rhs, ctx) {
                Ok(v) => v,
                Err(err) => {
                    proof {
                        assert(trace(&ctx.builder) =~= trace(&old(ctx).builder) + expr_fail_instrs(
                            *e,
                            old(ctx).env(),
                        ));
                    }
                    return Err(err);
                },
            };
            let v = match operator {
                crate::ast::Operator::Add => backend::add_i64(&mut ctx.builder, lv, rv),
                crate::ast::Operator::Sub => backend::sub_i64(&mut ctx.builder, lv, rv),
                crate::ast::Operator::Mul => backend::mul_i64(&mut ctx.builder, lv, rv),
                crate::ast::Operator::Div => backend::sdiv_i64(&mut ctx.builder, lv, rv),
            };
            proof {
                assert(trace(&ctx.builder) =~= trace(&old(ctx).builder) + expr_instrs(
                    *e,
                    old(ctx).env(),
                ));
            }
            Ok(v)
        },
    }
}

impl Emitter for Expression {
    open spec fn emit_req(&self, ctx: EmitContext) -> bool {
        block_open(&ctx.builder)
    }

    open spec fn emit_ens(&self, pre: EmitContext, post: EmitContext, r: Result<
        Value,
        EmitError,
    >) -> bool {
        expr_emit_ens(*self, pre, post, r)
    }

    fn emit(&self, ctx: &mut EmitContext) -> (r: Result<Value, EmitError>) {
        emit_expression(self, ctx)
    }
}

impl Emitter for VarStatement {
    open spec fn emit_req(&self, ctx: EmitContext) -> bool {
        block_open(&ctx.builder) && ctx.ctr() < usize::MAX
    }

    open spec fn emit_ens(&self, pre: EmitContext, post: EmitContext, r: Result<
        Value,
        EmitError,
    >) -> bool {
        stmt_emit_ens(Statement::Variable(*self), pre, post, r)
    }

    /// Lowers the initializer, allocates a fresh slot for the name, defines
    /// the slot with the initializer's value, and yields that value.
    fn emit(&self, ctx: &mut EmitContext) -> (r: Result<Value, EmitError>) {
        let val = match emit_expression(&*self.value, ctx) {
            Ok(v) => v,
            Err(err) => {
                return Err(err);
            },
        };
        let var = ctx.declare_var(self.name.as_str());
        backend::define_slot(&mut ctx.builder, var, val);
        proof {
            let s = Statement::Variable(*self);
            assert(trace(&ctx.builder) =~= trace(&old(ctx).builder) + stmt_instrs(
                s,
                old(ctx).env(),
                old(ctx).ctr(),
            ));
        }
        Ok(val)
    }
}

impl Emitter for PrintStatement {
    open spec fn emit_req(&self, ctx: EmitContext) -> bool {
        block_open(&ctx.builder)
    }

    open spec fn emit_ens(&self, pre: EmitContext, post: EmitContext, r: Result<
        Value,
        EmitError,
    >) -> bool {
        stmt_emit_ens(Statement::Print(*self), pre, post, r)
    }

    /// Lowers the inner expression and yields its value; no further backend
    /// action is performed.
    fn emit(&self, ctx: &mut EmitContext) -> (r: Result<Value, EmitError>) {
        emit_expression(&*self.value, ctx)
    }
}

impl Emitter for Statement {
    open spec fn emit_req(&self, ctx: EmitContext) -> bool {
        block_open(&ctx.builder) && ctx.ctr() < usize::MAX
    }

    open spec fn emit_ens(&self, pre: EmitContext, post: EmitContext, r: Result<
        Value,
        EmitError,
    >) -> bool {
        stmt_emit_ens(*self, pre, post, r)
    }

    /// Dispatches on the statement's kind.
    fn emit(&self, ctx: &mut EmitContext) -> (r: Result<Value, EmitError>) {
        match self {
            Statement::Variable(stmt) => stmt.emit(ctx),
            Statement::Print(stmt) => stmt.emit(ctx),
        }
    }
}

impl Emitter for Program {
    open spec fn emit_req(&self, ctx: EmitContext) -> bool {
        !block_open(&ctx.builder) && ctx.ctr() + self.0@.len() <= usize::MAX
    }

    open spec fn emit_ens(&self, pre: EmitContext, post: EmitContext, r: Result<
        Value,
        EmitError,
    >) -> bool {
        prog_emit_ens(*self, pre, post, r)
    }

    /// Opens exactly one basic block, makes it the insertion point, lowers
    /// each statement in source order, and closes the block with a return
    /// carrying no values. Yields a placeholder handle.
    fn emit(&self, ctx: &mut EmitContext) -> (r: Result<Value, EmitError>) {
        let entry = backend::make_block(&mut ctx.builder);
        backend::activate_block(&mut ctx.builder, entry);
        let ghost env0 = old(ctx).env();
        let ghost ctr0 = old(ctx).ctr();
        let n = self.0.len();
        let mut i: usize = 0;
        proof {
            assert(self.0@.take(0) =~= Seq::<Statement>::empty());
            assert(trace(&ctx.builder) =~= trace(&old(ctx).builder) + stmts_instrs(
                self.0@.take(0),
                env0,
                ctr0,
            ));
        }
        while i < n
            invariant
                i <= n,
                n == self.0@.len(),
                ctx.wf(),
                block_open(&ctx.builder),
                backend::block_count(&ctx.builder) == backend::block_count(&old(ctx).builder) + 1,
                env0 == old(ctx).env(),
                ctr0 == old(ctx).ctr(),
                ctr0 + n <= usize::MAX,
                stmts_ok(self.0@.take(i as int), env0, ctr0),
                ctx.env() == stmts_env_after(self.0@.take(i as int), env0, ctr0),
                ctx.ctr() == stmts_ctr_after(self.0@.take(i as int), ctr0),
                ctx.ctr() <= ctr0 + i,
                trace(&ctx.builder) == trace(&old(ctx).builder) + stmts_instrs(
                    self.0@.take(i as int),
                    env0,
                    ctr0,
                ),
            decreases n - i,
        {
            let stmt = &self.0[i];
            match stmt.emit(ctx) {
                Ok(_) => {},
                Err(err) => {
                    proof {
                        lemma_stmts_fail(self.0@, i as int, env0, ctr0);
                        assert(trace(&ctx.builder) =~= trace(&old(ctx).builder) + stmts_fail_instrs(
                            self.0@,
                            env0,
                            ctr0,
                        ));
                    }
                    return Err(err);
                },
            }
            proof {
                lemma_stmts_snoc(self.0@.take(i as int), self.0@[i as int], env0, ctr0);
                assert(self.0@.take(i as int + 1) =~= self.0@.take(i as int).push(
                    self.0@[i as int],
                ));
                assert(trace(&ctx.builder) =~= trace(&old(ctx).builder) + stmts_instrs(
                    self.0@.take(i as int + 1),
                    env0,
                    ctr0,
                ));
            }
            i = i + 1;
        }
        proof {
            assert(self.0@.take(n as int) =~= self.0@);
        }
        backend::emit_return(&mut ctx.builder);
        proof {
            assert(trace(&ctx.builder) =~= trace(&old(ctx).builder) + stmts_instrs(
                self.0@,
                env0,
                ctr0,
            ) + seq![Instr::Ret]);
        }
        Ok(backend::placeholder_value())
    }
}

} // verus!
