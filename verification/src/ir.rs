//! The mathematical model of lowering: which abstract backend actions a
//! syntax node gives rise to, in which order, and how the symbol table and
//! the slot counter evolve. The emitter's contracts are stated over this
//! model; the backend wrappers record their actions in the same vocabulary.

use vstd::prelude::*;

use crate::ast::{Expression, Operator, Program, Statement};

verus! {

/// One abstract lowering action, in the order it is performed through the
/// backend's function builder. Slot identifiers are the indices handed out by
/// the builder, counted from zero within one function.
pub enum Instr {
    /// Load of a 64-bit integer constant.
    Const(i64),
    /// Read of the current value of a declared slot.
    Read(nat),
    /// Definition of a slot's value.
    Def(nat),
    /// A binary integer instruction over the two most recently produced
    /// operand values.
    Binary(Operator),
    /// The terminating return, with no values.
    Ret,
}

/// The symbol table as a mathematical map: declared name to slot identifier.
pub type SlotEnv = Map<Seq<char>, nat>;

/// Every variable reference in `e` names a declared slot.
pub open spec fn expr_resolved(e: Expression, env: SlotEnv) -> bool
    decreases e,
{
    match e {
        Expression::Integer(_) => true,
        Expression::Variable(name) => env.contains_key(name@),
        Expression::BinaryOperation { lhs, operator: _, rhs } => expr_resolved(*lhs, env)
            && expr_resolved(*rhs, env),
    }
}

/// The actions emitted for `e`: operands left to right, each operator after
/// both of its operands.
pub open spec fn expr_instrs(e: Expression, env: SlotEnv) -> Seq<Instr>
    decreases e,
{
    match e {
        Expression::Integer(n) => seq![Instr::Const(n)],
        Expression::Variable(name) => seq![Instr::Read(env[name@])],
        Expression::BinaryOperation { lhs, operator, rhs } => expr_instrs(*lhs, env)
            + expr_instrs(*rhs, env) + seq![Instr::Binary(operator)],
    }
}

/// The name of the first unresolved reference in `e`, in evaluation order.
/// Meaningful only when `!expr_resolved(e, env)`.
pub open spec fn expr_fail_name(e: Expression, env: SlotEnv) -> Seq<char>
    decreases e,
{
    match e {
        Expression::Integer(_) => Seq::empty(),
        Expression::Variable(name) => name@,
        Expression::BinaryOperation { lhs, operator: _, rhs } => if !expr_resolved(*lhs, env) {
            expr_fail_name(*lhs, env)
        } else {
            expr_fail_name(*rhs, env)
        },
    }
}

/// The actions emitted for `e` before its first unresolved reference is
/// reached: an unresolved reference itself emits nothing.
pub open spec fn expr_fail_instrs(e: Expression, env: SlotEnv) -> Seq<Instr>
    decreases e,
{
    match e {
        Expression::Integer(_) => Seq::empty(),
        Expression::Variable(_) => Seq::empty(),
        Expression::BinaryOperation { lhs, operator: _, rhs } => if !expr_resolved(*lhs, env) {
            expr_fail_instrs(*lhs, env)
        } else {
            expr_instrs(*lhs, env) + expr_fail_instrs(*rhs, env)
        },
    }
}

/// The number of actions `e` contributes: one per literal, one per
/// reference, and one per operator beyond its operands' contributions.
pub open spec fn expr_count(e: Expression) -> nat
    decreases e,
{
    match e {
        Expression::Integer(_) => 1,
        Expression::Variable(_) => 1,
        Expression::BinaryOperation { lhs, operator: _, rhs } => expr_count(*lhs) + expr_count(*rhs)
            + 1,
    }
}

/// Every reference in `s`'s expression names a declared slot.
pub open spec fn stmt_resolved(s: Statement, env: SlotEnv) -> bool {
    match s {
        Statement::Variable(v) => expr_resolved(*v.value, env),
        Statement::Print(p) => expr_resolved(*p.value, env),
    }
}

/// The actions emitted for `s` when its references resolve: a declaration
/// lowers its initializer and then defines the freshly allocated slot `ctr`;
/// a print lowers its expression and nothing more.
pub open spec fn stmt_instrs(s: Statement, env: SlotEnv, ctr: nat) -> Seq<Instr> {
    match s {
        Statement::Variable(v) => expr_instrs(*v.value, env) + seq![Instr::Def(ctr)],
        Statement::Print(p) => expr_instrs(*p.value, env),
    }
}

/// The symbol table after `s`: a declaration binds its name to the fresh
/// slot `ctr`, overwriting any prior binding for that name.
pub open spec fn stmt_env_after(s: Statement, env: SlotEnv, ctr: nat) -> SlotEnv {
    match s {
        Statement::Variable(v) => env.insert(v.name@, ctr),
        Statement::Print(_) => env,
    }
}

/// The slot counter after `s`: a declaration consumes one fresh slot.
pub open spec fn stmt_ctr_after(s: Statement, ctr: nat) -> nat {
    match s {
        Statement::Variable(_) => ctr + 1,
        Statement::Print(_) => ctr,
    }
}

/// The name of the first unresolved reference in `s`.
pub open spec fn stmt_fail_name(s: Statement, env: SlotEnv) -> Seq<char> {
    match s {
        Statement::Variable(v) => expr_fail_name(*v.value, env),
        Statement::Print(p) => expr_fail_name(*p.value, env),
    }
}

/// The actions emitted for `s` before its first unresolved reference: a
/// failing declaration never reaches its slot definition.
pub open spec fn stmt_fail_instrs(s: Statement, env: SlotEnv) -> Seq<Instr> {
    match s {
        Statement::Variable(v) => expr_fail_instrs(*v.value, env),
        Statement::Print(p) => expr_fail_instrs(*p.value, env),
    }
}

/// The number of actions `s` contributes: its expression's count, plus one
/// slot definition for a declaration.
pub open spec fn stmt_count(s: Statement) -> nat {
    match s {
        Statement::Variable(v) => expr_count(*v.value) + 1,
        Statement::Print(p) => expr_count(*p.value),
    }
}

/// Statements resolve in source order: each against the table left by the
/// ones before it.
pub open spec fn stmts_ok(ss: Seq<Statement>, env: SlotEnv, ctr: nat) -> bool
    decreases ss.len(),
{
    ss.len() == 0 || (stmt_resolved(ss[0], env) && stmts_ok(
        ss.drop_first(),
        stmt_env_after(ss[0], env, ctr),
        stmt_ctr_after(ss[0], ctr),
    ))
}

/// The actions emitted for a statement sequence, in source order.
pub open spec fn stmts_instrs(ss: Seq<Statement>, env: SlotEnv, ctr: nat) -> Seq<Instr>
    decreases ss.len(),
{
    if ss.len() == 0 {
        Seq::empty()
    } else {
        stmt_instrs(ss[0], env, ctr) + stmts_instrs(
            ss.drop_first(),
            stmt_env_after(ss[0], env, ctr),
            stmt_ctr_after(ss[0], ctr),
        )
    }
}

/// The symbol table after a statement sequence.
pub open spec fn stmts_env_after(ss: Seq<Statement>, env: SlotEnv, ctr: nat) -> SlotEnv
    decreases ss.len(),
{
    if ss.len() == 0 {
        env
    } else {
        stmts_env_after(ss.drop_first(), stmt_env_after(ss[0], env, ctr), stmt_ctr_after(ss[0], ctr))
    }
}

/// The slot counter after a statement sequence.
pub open spec fn stmts_ctr_after(ss: Seq<Statement>, ctr: nat) -> nat
    decreases ss.len(),
{
    if ss.len() == 0 {
        ctr
    } else {
        stmts_ctr_after(ss.drop_first(), stmt_ctr_after(ss[0], ctr))
    }
}

/// The name of the first unresolved reference in the sequence, in emission
/// order. Meaningful only when `!stmts_ok(ss, env, ctr)`.
pub open spec fn stmts_fail_name(ss: Seq<Statement>, env: SlotEnv, ctr: nat) -> Seq<char>
    decreases ss.len(),
{
    if ss.len() == 0 {
        Seq::empty()
    } else if !stmt_resolved(ss[0], env) {
        stmt_fail_name(ss[0], env)
    } else {
        stmts_fail_name(ss.drop_first(), stmt_env_after(ss[0], env, ctr), stmt_ctr_after(ss[0], ctr))
    }
}

/// The actions emitted before the first unresolved reference stops the
/// sequence.
pub open spec fn stmts_fail_instrs(ss: Seq<Statement>, env: SlotEnv, ctr: nat) -> Seq<Instr>
    decreases ss.len(),
{
    if ss.len() == 0 {
        Seq::empty()
    } else if !stmt_resolved(ss[0], env) {
        stmt_fail_instrs(ss[0], env)
    } else {
        stmt_instrs(ss[0], env, ctr) + stmts_fail_instrs(
            ss.drop_first(),
            stmt_env_after(ss[0], env, ctr),
            stmt_ctr_after(ss[0], ctr),
        )
    }
}

/// The number of actions a statement sequence contributes.
pub open spec fn stmts_count(ss: Seq<Statement>) -> nat
    decreases ss.len(),
{
    if ss.len() == 0 {
        0
    } else {
        stmt_count(ss[0]) + stmts_count(ss.drop_first())
    }
}

/// Appending one statement to a sequence appends its actions, resolves it
/// against the table the sequence leaves, and advances table and counter by
/// that one statement.
pub proof fn lemma_stmts_snoc(ss: Seq<Statement>, s: Statement, env: SlotEnv, ctr: nat)
    ensures
        stmts_ok(ss.push(s), env, ctr) == (stmts_ok(ss, env, ctr) && stmt_resolved(
            s,
            stmts_env_after(ss, env, ctr),
        )),
        stmts_instrs(ss.push(s), env, ctr) == stmts_instrs(ss, env, ctr) + stmt_instrs(
            s,
            stmts_env_after(ss, env, ctr),
            stmts_ctr_after(ss, ctr),
        ),
        stmts_env_after(ss.push(s), env, ctr) == stmt_env_after(
            s,
            stmts_env_after(ss, env, ctr),
            stmts_ctr_after(ss, ctr),
        ),
        stmts_ctr_after(ss.push(s), ctr) == stmt_ctr_after(s, stmts_ctr_after(ss, ctr)),
    decreases ss.len(),
{
    reveal_with_fuel(stmts_ok, 3);
    reveal_with_fuel(stmts_instrs, 3);
    reveal_with_fuel(stmts_env_after, 3);
    reveal_with_fuel(stmts_ctr_after, 3);
    if ss.len() == 0 {
        assert(ss.push(s)[0] == s);
        assert(ss.push(s).drop_first() =~= Seq::<Statement>::empty());
        assert(stmts_instrs(ss.push(s), env, ctr) =~= stmts_instrs(ss, env, ctr) + stmt_instrs(
            s,
            stmts_env_after(ss, env, ctr),
            stmts_ctr_after(ss, ctr),
        ));
    } else {
        let env1 = stmt_env_after(ss[0], env, ctr);
        let ctr1 = stmt_ctr_after(ss[0], ctr);
        lemma_stmts_snoc(ss.drop_first(), s, env1, ctr1);
        assert(ss.push(s)[0] == ss[0]);
        assert(ss.push(s).drop_first() =~= ss.drop_first().push(s));
        assert(stmts_instrs(ss.push(s), env, ctr) =~= stmts_instrs(ss, env, ctr) + stmt_instrs(
            s,
            stmts_env_after(ss, env, ctr),
            stmts_ctr_after(ss, ctr),
        ));
    }
}

/// When a prefix of the sequence resolves and the statement after it does
/// not, the whole sequence does not resolve, it fails on that statement's
/// first unresolved name, and it emits exactly the prefix's actions followed
/// by the failing statement's partial actions.
pub proof fn lemma_stmts_fail(ss: Seq<Statement>, i: int, env: SlotEnv, ctr: nat)
    requires
        0 <= i < ss.len(),
        stmts_ok(ss.take(i), env, ctr),
        !stmt_resolved(ss[i], stmts_env_after(ss.take(i), env, ctr)),
    ensures
        !stmts_ok(ss, env, ctr),
        stmts_fail_name(ss, env, ctr) == stmt_fail_name(
            ss[i],
            stmts_env_after(ss.take(i), env, ctr),
        ),
        stmts_fail_instrs(ss, env, ctr) == stmts_instrs(ss.take(i), env, ctr) + stmt_fail_instrs(
            ss[i],
            stmts_env_after(ss.take(i), env, ctr),
        ),
    decreases i,
{
    if i == 0 {
        assert(ss.take(0) =~= Seq::<Statement>::empty());
        assert(stmts_fail_instrs(ss, env, ctr) =~= stmts_instrs(ss.take(0), env, ctr)
            + stmt_fail_instrs(ss[0], stmts_env_after(ss.take(0), env, ctr)));
    } else {
        let env1 = stmt_env_after(ss[0], env, ctr);
        let ctr1 = stmt_ctr_after(ss[0], ctr);
        assert(ss.take(i)[0] == ss[0]);
        assert(ss.take(i).drop_first() =~= ss.drop_first().take(i - 1));
        assert(ss.drop_first()[i - 1] == ss[i]);
        lemma_stmts_fail(ss.drop_first(), i - 1, env1, ctr1);
        assert(stmts_fail_instrs(ss, env, ctr) =~= stmts_instrs(ss.take(i), env, ctr)
            + stmt_fail_instrs(ss[i], stmts_env_after(ss.take(i), env, ctr)));
    }
}

/// An expression's actions number exactly its count: one per literal, one
/// per reference, one per operator beyond its operands'.
pub proof fn lemma_expr_instr_count(e: Expression, env: SlotEnv)
    ensures
        expr_instrs(e, env).len() == expr_count(e),
    decreases e,
{
    match e {
        Expression::Integer(_) => {},
        Expression::Variable(_) => {},
        Expression::BinaryOperation { lhs, operator: _, rhs } => {
            lemma_expr_instr_count(*lhs, env);
            lemma_expr_instr_count(*rhs, env);
        },
    }
}

/// A statement's actions number exactly its count: its expression's count,
/// plus one slot definition for a declaration.
pub proof fn lemma_stmt_instr_count(s: Statement, env: SlotEnv, ctr: nat)
    ensures
        stmt_instrs(s, env, ctr).len() == stmt_count(s),
{
    match s {
        Statement::Variable(v) => lemma_expr_instr_count(*v.value, env),
        Statement::Print(p) => lemma_expr_instr_count(*p.value, env),
    }
}

/// A statement sequence's actions number exactly the sum of its statements'
/// counts, whatever table and counter it starts from.
pub proof fn lemma_stmts_instr_count(ss: Seq<Statement>, env: SlotEnv, ctr: nat)
    ensures
        stmts_instrs(ss, env, ctr).len() == stmts_count(ss),
    decreases ss.len(),
{
    if ss.len() > 0 {
        lemma_stmt_instr_count(ss[0], env, ctr);
        lemma_stmts_instr_count(
            ss.drop_first(),
            stmt_env_after(ss[0], env, ctr),
            stmt_ctr_after(ss[0], ctr),
        );
    }
}

/// A resolving program's lowering emits exactly as many actions as the sum,
/// over all statements, of what each statement and its sub-expressions
/// contribute, plus the one terminating return.
pub proof fn lemma_program_instr_count(p: Program)
    ensures
        program_instrs(p).len() == program_count(p),
{
    lemma_stmts_instr_count(p.0@, Map::empty(), 0);
}

/// Declaring a name again rebinds it: the table maps the name to the slot
/// of the later declaration, exactly as if the earlier one had bound
/// nothing, and bindings of other names are untouched.
pub proof fn lemma_redeclare_rebinds(env: SlotEnv, name: Seq<char>, s1: nat, s2: nat)
    ensures
        env.insert(name, s1).insert(name, s2) == env.insert(name, s2),
        env.insert(name, s1).insert(name, s2)[name] == s2,
{
    assert(env.insert(name, s1).insert(name, s2) =~= env.insert(name, s2));
}

/// A reference to an undeclared name fails, carries that name, and emits
/// nothing for the reference itself: its partial lowering is empty.
pub proof fn lemma_unresolved_reference_emits_nothing(name: String, env: SlotEnv)
    requires
        !env.contains_key(name@),
    ensures
        !expr_resolved(Expression::Variable(name), env),
        expr_fail_name(Expression::Variable(name), env) == name@,
        expr_fail_instrs(Expression::Variable(name), env) == Seq::<Instr>::empty(),
{
}

/// Evaluation order of a binary operation is left then right: the actions
/// lowering the left operand stand strictly before those lowering the right
/// operand, which stand before the operator's own instruction.
pub proof fn lemma_binop_order(e: Expression, env: SlotEnv)
    ensures
        e matches Expression::BinaryOperation { lhs, operator, rhs } ==> expr_instrs(e, env)
            == expr_instrs(*lhs, env) + expr_instrs(*rhs, env) + seq![Instr::Binary(operator)],
{
}

/// A whole program resolves from an empty table and a fresh counter.
pub open spec fn program_ok(p: Program) -> bool {
    stmts_ok(p.0@, Map::empty(), 0)
}

/// The actions emitted for a whole program: its statements in order, closed
/// by the terminating return.
pub open spec fn program_instrs(p: Program) -> Seq<Instr> {
    stmts_instrs(p.0@, Map::empty(), 0) + seq![Instr::Ret]
}

/// The number of actions a whole program contributes, counting its
/// terminating return.
pub open spec fn program_count(p: Program) -> nat {
    stmts_count(p.0@) + 1
}

} // verus!
