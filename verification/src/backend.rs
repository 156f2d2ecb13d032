//! The narrow vocabulary of backend operations the emitter relies on, each a
//! thin trusted wrapper around one call into cranelift's function builder.
//!
//! The builder is opaque to verification; the uninterpreted functions below
//! name what the contracts need of it: the ordered sequence of building
//! actions performed through it (`trace`), how many variables and blocks it
//! has handed out, whether an unfilled block is the active insertion point,
//! which created blocks were never activated, which value handles belong to
//! its function with 64-bit integer type, and which declared variables carry
//! that type. The preconditions keep every call away from the builder's own
//! panics; the postconditions say no more of each call than
//! cranelift-frontend's source shows.

use vstd::prelude::*;

use cranelift::prelude::types::I64;
use cranelift::prelude::{Block, EntityRef, FunctionBuilder, InstBuilder, Value, Variable};

use crate::ir::Instr;

verus! {

#[verifier::external_type_specification]
#[verifier::external_body]
pub struct ExFunctionBuilder<'a>(FunctionBuilder<'a>);

#[verifier::external_type_specification]
#[verifier::external_body]
pub struct ExValue(Value);

#[verifier::external_type_specification]
#[verifier::external_body]
pub struct ExVariable(Variable);

#[verifier::external_type_specification]
#[verifier::external_body]
pub struct ExBlock(Block);

/// The building actions performed through `b` since its creation, in order.
pub uninterp spec fn trace(b: &FunctionBuilder) -> Seq<Instr>;

/// How many variables have been declared through `b`.
pub uninterp spec fn slot_count(b: &FunctionBuilder) -> nat;

/// How many blocks have been created through `b`.
pub uninterp spec fn block_count(b: &FunctionBuilder) -> nat;

/// Whether `b`'s insertion point stands at a block not yet closed by a
/// terminator, so that instructions may be inserted.
pub uninterp spec fn block_open(b: &FunctionBuilder) -> bool;

/// The blocks created through `b` that were never yet made the insertion
/// point.
pub uninterp spec fn fresh_blocks(b: &FunctionBuilder) -> Set<Block>;

/// The value handles belonging to `b`'s function that carry the 64-bit
/// integer type.
pub uninterp spec fn i64_vals(b: &FunctionBuilder) -> Set<Value>;

/// Whether `v` was declared through `b` with the 64-bit integer type.
pub uninterp spec fn slot_i64(b: &FunctionBuilder, v: Variable) -> bool;

/// The index a variable handle carries.
pub uninterp spec fn slot_id(v: Variable) -> nat;

/// What every builder call leaves untouched: declared variables and their
/// types, the block count, and every existing 64-bit value handle.
pub open spec fn keeps(b1: &FunctionBuilder, b2: &FunctionBuilder) -> bool {
    &&& slot_count(b2) == slot_count(b1)
    &&& block_count(b2) == block_count(b1)
    &&& i64_vals(b1).subset_of(i64_vals(b2))
    &&& forall|v: Variable| #[trigger] slot_i64(b1, v) ==> slot_i64(b2, v)
}

/// Relies on `FunctionBuilder::create_block`: makes one new empty block and
/// touches neither instructions, variables nor the insertion point.
#[verifier::external_body]
pub(crate) fn make_block(b: &mut FunctionBuilder) -> (blk: Block)
    ensures
        block_count(final(b)) == block_count(old(b)) + 1,
        fresh_blocks(final(b)) == fresh_blocks(old(b)).insert(blk),
        trace(final(b)) == trace(old(b)),
        block_open(final(b)) == block_open(old(b)),
        slot_count(final(b)) == slot_count(old(b)),
        i64_vals(final(b)) == i64_vals(old(b)),
        forall|v: Variable| #[trigger] slot_i64(old(b), v) ==> slot_i64(final(b), v),
{
    b.create_block()
}

/// Relies on `FunctionBuilder::switch_to_block`: makes a created,
/// never-activated block the insertion point. Asks that no unfilled block be
/// active and that the block be fresh, which is what the builder itself
/// asserts.
#[verifier::external_body]
pub(crate) fn activate_block(b: &mut FunctionBuilder, blk: Block)
    requires
        !block_open(old(b)),
        fresh_blocks(old(b)).contains(blk),
    ensures
        block_open(final(b)),
        fresh_blocks(final(b)) == fresh_blocks(old(b)).remove(blk),
        trace(final(b)) == trace(old(b)),
        keeps(old(b), final(b)),
{
    b.switch_to_block(blk)
}

/// Relies on `FunctionBuilder::declare_var`: declares one fresh variable of
/// 64-bit integer type; the builder numbers variables consecutively from
/// zero.
#[verifier::external_body]
pub(crate) fn new_slot(b: &mut FunctionBuilder) -> (var: Variable)
    ensures
        slot_count(final(b)) == slot_count(old(b)) + 1,
        slot_id(var) == slot_count(old(b)),
        slot_i64(final(b), var),
        forall|v: Variable| #[trigger] slot_i64(old(b), v) ==> slot_i64(final(b), v),
        trace(final(b)) == trace(old(b)),
        block_count(final(b)) == block_count(old(b)),
        block_open(final(b)) == block_open(old(b)),
        fresh_blocks(final(b)) == fresh_blocks(old(b)),
        i64_vals(final(b)) == i64_vals(old(b)),
{
    b.declare_var(I64)
}

/// Relies on `FunctionBuilder::def_var`: records the current value of a
/// declared 64-bit variable. The value must be a 64-bit value of the same
/// function, else the builder panics on the type mismatch.
#[verifier::external_body]
pub(crate) fn define_slot(b: &mut FunctionBuilder, var: Variable, val: Value)
    requires
        block_open(old(b)),
        slot_i64(old(b), var),
        i64_vals(old(b)).contains(val),
    ensures
        trace(final(b)) == trace(old(b)).push(Instr::Def(slot_id(var))),
        block_open(final(b)),
        i64_vals(final(b)) == i64_vals(old(b)),
        keeps(old(b), final(b)),
{
    b.def_var(var, val)
}

/// Relies on `FunctionBuilder::use_var`: yields a 64-bit value handle for
/// the current value of a declared 64-bit variable at the insertion point.
#[verifier::external_body]
pub(crate) fn read_slot(b: &mut FunctionBuilder, var: Variable) -> (r: Value)
    requires
        block_open(old(b)),
        slot_i64(old(b), var),
    ensures
        trace(final(b)) == trace(old(b)).push(Instr::Read(slot_id(var))),
        block_open(final(b)),
        i64_vals(final(b)).contains(r),
        keeps(old(b), final(b)),
{
    b.use_var(var)
}

/// Relies on `InstBuilder::iconst`: inserts a 64-bit integer constant-load
/// at the insertion point and returns its result value.
#[verifier::external_body]
pub(crate) fn const_i64(b: &mut FunctionBuilder, n: i64) -> (r: Value)
    requires
        block_open(old(b)),
    ensures
        trace(final(b)) == trace(old(b)).push(Instr::Const(n)),
        block_open(final(b)),
        i64_vals(final(b)).contains(r),
        keeps(old(b), final(b)),
{
    b.ins().iconst(I64, n)
}

/// Relies on `InstBuilder::iadd`: inserts an integer add over two 64-bit
/// values of the builder's function and returns its result value.
#[verifier::external_body]
pub(crate) fn add_i64(b: &mut FunctionBuilder, x: Value, y: Value) -> (r: Value)
    requires
        block_open(old(b)),
        i64_vals(old(b)).contains(x),
        i64_vals(old(b)).contains(y),
    ensures
        trace(final(b)) == trace(old(b)).push(Instr::Binary(crate::ast::Operator::Add)),
        block_open(final(b)),
        i64_vals(final(b)).contains(r),
        keeps(old(b), final(b)),
{
    b.ins().iadd(x, y)
}

/// Relies on `InstBuilder::isub`: inserts an integer subtract over two
/// 64-bit values of the builder's function and returns its result value.
#[verifier::external_body]
pub(crate) fn sub_i64(b: &mut FunctionBuilder, x: Value, y: Value) -> (r: Value)
    requires
        block_open(old(b)),
        i64_vals(old(b)).contains(x),
        i64_vals(old(b)).contains(y),
    ensures
        trace(final(b)) == trace(old(b)).push(Instr::Binary(crate::ast::Operator::Sub)),
        block_open(final(b)),
        i64_vals(final(b)).contains(r),
        keeps(old(b), final(b)),
{
    b.ins().isub(x, y)
}

/// Relies on `InstBuilder::imul`: inserts an integer multiply over two
/// 64-bit values of the builder's function and returns its result value.
#[verifier::external_body]
pub(crate) fn mul_i64(b: &mut FunctionBuilder, x: Value, y: Value) -> (r: Value)
    requires
        block_open(old(b)),
        i64_vals(old(b)).contains(x),
        i64_vals(old(b)).contains(y),
    ensures
        trace(final(b)) == trace(old(b)).push(Instr::Binary(crate::ast::Operator::Mul)),
        block_open(final(b)),
        i64_vals(final(b)).contains(r),
        keeps(old(b), final(b)),
{
    b.ins().imul(x, y)
}

/// Relies on `InstBuilder::sdiv`: inserts a signed integer divide over two
/// 64-bit values of the builder's function and returns its result value.
#[verifier::external_body]
pub(crate) fn sdiv_i64(b: &mut FunctionBuilder, x: Value, y: Value) -> (r: Value)
    requires
        block_open(old(b)),
        i64_vals(old(b)).contains(x),
        i64_vals(old(b)).contains(y),
    ensures
        trace(final(b)) == trace(old(b)).push(Instr::Binary(crate::ast::Operator::Div)),
        block_open(final(b)),
        i64_vals(final(b)).contains(r),
        keeps(old(b), final(b)),
{
    b.ins().sdiv(x, y)
}

/// Relies on `InstBuilder::return_`: inserts the terminating return with no
/// values, closing the active block.
#[verifier::external_body]
pub(crate) fn emit_return(b: &mut FunctionBuilder)
    requires
        block_open(old(b)),
    ensures
        trace(final(b)) == trace(old(b)).push(Instr::Ret),
        !block_open(final(b)),
        i64_vals(final(b)) == i64_vals(old(b)),
        keeps(old(b), final(b)),
{
    b.ins().return_(&[]);
}

/// Relies on `Value::new` (`EntityRef::new`): fabricates the placeholder
/// handle a whole program's lowering yields; nothing is promised of it.
#[verifier::external_body]
pub(crate) fn placeholder_value() -> Value {
    Value::new(0)
}

} // verus!
