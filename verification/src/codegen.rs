//! The code generator: registers top-level declarations in the global scope,
//! lays out stack frames and the calling convention, and compiles statements
//! and expressions into one ordered instruction sequence.
//!
//! All expressions leave their result in `RESULT_REG`: the machine is modeled
//! as a strict accumulator machine.  Emission is append-only, except that a
//! function prologue's stack-reservation placeholder is patched once, after
//! the function body has been compiled and the frame size is known.

use vstd::prelude::*;

use crate::ast::{
    Assignment, Block, Expr, Expression, FunctionCall, IfStatement, InputSpan, Item, LetStatement,
    LoopStatement, Program, TypeRef,
};
use crate::error::{CodegenError, Feature};
use crate::instr::{
    Instruction, LabelId, Operand, FRAME_POINTER, RESULT_REG, RETURN_REG, STACK_POINTER, ZERO_REG,
};
use crate::scope::{
    lemma_lookup_id_in_table, lemma_wf_after_fn_bind, lemma_wf_after_var_bind, lookup_id, Function,
    IdentId, Location, Scope, Variable,
};
use crate::types::{
    compatible, lemma_compatible_congruence, lemma_type_eq_primitive, lemma_type_eq_refl,
    lemma_type_eq_sym, lemma_type_eq_trans, spec_primitive_type, type_eq, types_compatible, Type,
};

verus! {

/// A resolved identifier: a reference into the local or the global scope.
#[derive(Clone, Copy, PartialEq, Eq, Structural, Debug)]
pub enum IdentRef {
    LocalRef(IdentId),
    GlobalRef(IdentId),
}

/// The identifier a name resolves to: the innermost scope wins, and the
/// global scope is consulted only when the local scope has no binding.
pub open spec fn spec_get_ident(global: Scope, local: Scope, name: Seq<char>) -> Option<IdentRef> {
    match lookup_id(local.ident_table@, name) {
        Option::Some(id) => Option::Some(IdentRef::LocalRef(id)),
        Option::None => match lookup_id(global.ident_table@, name) {
            Option::Some(id) => Option::Some(IdentRef::GlobalRef(id)),
            Option::None => Option::None,
        },
    }
}

/// The entity list entry that an identifier reference points at.
pub open spec fn spec_ident_id(ir: IdentRef) -> IdentId {
    match ir {
        IdentRef::LocalRef(id) => id,
        IdentRef::GlobalRef(id) => id,
    }
}

/// The identifier reference points inside the entity lists of its scope.
pub open spec fn spec_ident_valid(global: Scope, local: Scope, ir: IdentRef) -> bool {
    match ir {
        IdentRef::LocalRef(id) => match id {
            IdentId::FnIdentId(k) => k < local.functions@.len(),
            IdentId::VarIdentId(k) => k < local.vars@.len(),
        },
        IdentRef::GlobalRef(id) => match id {
            IdentId::FnIdentId(k) => k < global.functions@.len(),
            IdentId::VarIdentId(k) => k < global.vars@.len(),
        },
    }
}

/// The resolved type of the entity an identifier reference points at: a
/// function's return type, or a variable's type.
pub open spec fn spec_ident_rtype(global: Scope, local: Scope, ir: IdentRef) -> Type {
    match ir {
        IdentRef::LocalRef(id) => match id {
            IdentId::FnIdentId(k) => local.functions@[k as int].rtype,
            IdentId::VarIdentId(k) => local.vars@[k as int].rtype,
        },
        IdentRef::GlobalRef(id) => match id {
            IdentId::FnIdentId(k) => global.functions@[k as int].rtype,
            IdentId::VarIdentId(k) => global.vars@[k as int].rtype,
        },
    }
}

/// The number of declared parameters of the function an identifier
/// reference points at.
pub open spec fn spec_fn_arity(global: Scope, local: Scope, ir: IdentRef) -> int
    recommends
        spec_ident_id(ir) is FnIdentId,
{
    match ir {
        IdentRef::LocalRef(id) => match id {
            IdentId::FnIdentId(k) => local.functions@[k as int].arg_types@.len() as int,
            IdentId::VarIdentId(_) => 0,
        },
        IdentRef::GlobalRef(id) => match id {
            IdentId::FnIdentId(k) => global.functions@[k as int].arg_types@.len() as int,
            IdentId::VarIdentId(_) => 0,
        },
    }
}

/// The entry label of the function an identifier reference points at.
pub open spec fn spec_fn_location(global: Scope, local: Scope, ir: IdentRef) -> LabelId
    recommends
        spec_ident_id(ir) is FnIdentId,
{
    match ir {
        IdentRef::LocalRef(id) => match id {
            IdentId::FnIdentId(k) => local.functions@[k as int].location,
            IdentId::VarIdentId(_) => LabelId::Exit,
        },
        IdentRef::GlobalRef(id) => match id {
            IdentId::FnIdentId(k) => global.functions@[k as int].location,
            IdentId::VarIdentId(_) => LabelId::Exit,
        },
    }
}

/// The declared type of the `i`-th parameter of the function an identifier
/// reference points at.
pub open spec fn spec_fn_arg_type(global: Scope, local: Scope, ir: IdentRef, i: int) -> Type
    recommends
        spec_ident_id(ir) is FnIdentId,
        0 <= i < spec_fn_arity(global, local, ir),
{
    match ir {
        IdentRef::LocalRef(id) => match id {
            IdentId::FnIdentId(k) => local.functions@[k as int].arg_types@[i],
            IdentId::VarIdentId(_) => Type::Unit,
        },
        IdentRef::GlobalRef(id) => match id {
            IdentId::FnIdentId(k) => global.functions@[k as int].arg_types@[i],
            IdentId::VarIdentId(_) => Type::Unit,
        },
    }
}

/// The storage location of the variable an identifier reference points at.
pub open spec fn spec_var_location(global: Scope, local: Scope, ir: IdentRef) -> Location
    recommends
        spec_ident_id(ir) is VarIdentId,
{
    match ir {
        IdentRef::LocalRef(id) => match id {
            IdentId::FnIdentId(_) => Location::Offset(0),
            IdentId::VarIdentId(k) => local.vars@[k as int].location,
        },
        IdentRef::GlobalRef(id) => match id {
            IdentId::FnIdentId(_) => Location::Offset(0),
            IdentId::VarIdentId(k) => global.vars@[k as int].location,
        },
    }
}

/// In well-formed scopes, a successful lookup yields a valid reference whose
/// resolved type admits a `u32` size computation.
pub proof fn lemma_get_ident_valid(global: Scope, local: Scope, name: Seq<char>)
    requires
        global.wf(),
        local.wf(),
        spec_get_ident(global, local, name) is Some,
    ensures
        spec_ident_valid(global, local, spec_get_ident(global, local, name)->Some_0),
        spec_ident_rtype(global, local, spec_get_ident(global, local, name)->Some_0).sized(),
{
    if lookup_id(local.ident_table@, name) is Some {
        lemma_lookup_id_in_table(local.ident_table@, name);
    } else {
        lemma_lookup_id_in_table(global.ident_table@, name);
    }
}

/// Get the identifier corresponding to an identifier name, searching the
/// local scope first and the global scope second.
pub fn get_ident(global: &Scope, local: &Scope, name: &String, span: InputSpan) -> (r: Result<
    IdentRef,
    CodegenError,
>)
    ensures
        match spec_get_ident(*global, *local, name@) {
            Option::Some(ir) => r == Ok::<IdentRef, CodegenError>(ir),
            Option::None => r == Err::<IdentRef, CodegenError>(
                CodegenError::IdentifierNotFound { name: *name, span: span },
            ),
        },
        global.wf() && local.wf() && r is Ok ==> spec_ident_valid(*global, *local, r->Ok_0)
            && spec_ident_rtype(*global, *local, r->Ok_0).sized(),
{
    let r = match local.find_ident(name) {
        Some(id) => Ok(IdentRef::LocalRef(id)),
        None => match global.find_ident(name) {
            Some(id) => Ok(IdentRef::GlobalRef(id)),
            None => Err(CodegenError::IdentifierNotFound { name: name.clone(), span }),
        },
    };
    proof {
        if global.wf() && local.wf() && r is Ok {
            lemma_get_ident_valid(*global, *local, name@);
        }
    }
    r
}

/// The resolved return type of an identifier: a function's return type or a
/// variable's type.
pub fn ident_rtype(global: &Scope, local: &Scope, ir: IdentRef) -> (r: Type)
    requires
        spec_ident_valid(*global, *local, ir),
        spec_ident_rtype(*global, *local, ir).sized(),
    ensures
        type_eq(r, spec_ident_rtype(*global, *local, ir)),
        r.spec_size() == spec_ident_rtype(*global, *local, ir).spec_size(),
        r.sized(),
{
    match ir {
        IdentRef::LocalRef(id) => match id {
            IdentId::FnIdentId(k) => local.functions[k].rtype.dup(),
            IdentId::VarIdentId(k) => local.vars[k].rtype.dup(),
        },
        IdentRef::GlobalRef(id) => match id {
            IdentId::FnIdentId(k) => global.functions[k].rtype.dup(),
            IdentId::VarIdentId(k) => global.vars[k].rtype.dup(),
        },
    }
}

/// The type a type reference resolves to: primitives are looked up in the
/// fixed type table, and a bare name is resolved as an identifier, which
/// supports simple type aliasing.
pub open spec fn spec_resolve(global: Scope, local: Scope, tr: TypeRef) -> Option<Type> {
    match tr {
        TypeRef::Primitive(k) => Option::Some(spec_primitive_type(k)),
        TypeRef::Named(name) => match spec_get_ident(global, local, name@) {
            Option::Some(ir) => Option::Some(spec_ident_rtype(global, local, ir)),
            Option::None => Option::None,
        },
    }
}

/// Resolve unknown types, and type aliases.
pub fn resolve_type(global: &Scope, local: &Scope, tr: &TypeRef) -> (r: Result<Type, CodegenError>)
    requires
        global.wf(),
        local.wf(),
    ensures
        match spec_resolve(*global, *local, *tr) {
            Option::Some(t) => r is Ok && type_eq(r->Ok_0, t) && r->Ok_0.spec_size()
                == t.spec_size() && r->Ok_0.sized(),
            Option::None => r == Err::<Type, CodegenError>(
                CodegenError::IdentifierNotFound {
                    name: tr->Named_0,
                    span: (InputSpan { start: 0, end: 0 }),
                },
            ),
        },
{
    match tr {
        TypeRef::Primitive(k) => {
            let t = crate::types::primitive_type(*k);
            proof {
                lemma_type_eq_refl(t);
            }
            Ok(t)
        },
        TypeRef::Named(name) => {
            let ir = match get_ident(global, local, name, InputSpan::invalid()) {
                Ok(ir) => ir,
                Err(e) => {
                    return Err(e);
                },
            };
            Ok(ident_rtype(global, local, ir))
        },
    }
}

/// Check that a type is the same as the expected type, or that one of the two
/// is divergent and therefore never produces a value to disagree on.
pub fn check_type(input: &Type, expected: &Type) -> (r: Result<(), CodegenError>)
    ensures
        r is Ok <==> compatible(*input, *expected),
        !compatible(*input, *expected) ==> (r matches Err(e) && (e
            matches CodegenError::TypeMismatch { expected: ee, found: ff } && type_eq(ee, *expected)
            && type_eq(ff, *input))),
{
    if types_compatible(input, expected) {
        Ok(())
    } else {
        Err(CodegenError::TypeMismatch { expected: expected.dup(), found: input.dup() })
    }
}

/// The instruction that loads a value from a storage location into
/// `RESULT_REG`.
pub open spec fn load_instr(loc: Location) -> Instruction {
    match loc {
        Location::Label(l) => Instruction::Load32(RESULT_REG, Operand::Unknown(l), ZERO_REG),
        Location::Offset(o) => Instruction::Load32(RESULT_REG, Operand::Const(o), FRAME_POINTER),
        Location::Register(id) => Instruction::AddSigned(RESULT_REG, id, ZERO_REG),
    }
}

/// The instruction that stores `RESULT_REG` into a storage location.
pub open spec fn store_instr(loc: Location) -> Instruction {
    match loc {
        Location::Label(l) => Instruction::Store32(Operand::Unknown(l), ZERO_REG, RESULT_REG),
        Location::Offset(o) => Instruction::Store32(Operand::Const(o), FRAME_POINTER, RESULT_REG),
        Location::Register(id) => Instruction::AddSigned(id, RESULT_REG, ZERO_REG),
    }
}

/// The frame bytes a `let` binding reserves: the size of its declared type
/// (only primitive declared types reach the allocation step).
pub open spec fn let_size(tr: TypeRef) -> int {
    match tr {
        TypeRef::Primitive(k) => spec_primitive_type(k).spec_size(),
        TypeRef::Named(_) => 0,
    }
}

/// Total frame bytes reserved by the `let` bindings compiled inside an
/// expression, including those of nested blocks: nested blocks share the
/// enclosing function's scope and offset counter.
pub open spec fn expr_lets_size(e: Expression) -> int
    decreases e, 0int,
{
    match *e.expr {
        Expr::IfExpr(s) => expr_lets_size(s.condition) + block_lets_size(s.body) + (match s
            .else_block {
            Option::Some(b) => block_lets_size(b),
            Option::None => 0,
        }),
        Expr::LoopExpr(s) => block_lets_size(s.body),
        Expr::CallExpr(c) => stmts_lets_size_from(c.args@, 0),
        Expr::Return(inner) => expr_lets_size(inner),
        Expr::LetExpr(ls) => let_size(ls.var_type) + (match ls.assignment {
            Option::Some(a) => expr_lets_size(a.expression),
            Option::None => 0,
        }),
        Expr::AssignExpr(a) => expr_lets_size(a.expression),
        _ => 0,
    }
}

/// Total frame bytes reserved by the `let` bindings of a block.
pub open spec fn block_lets_size(b: Block) -> int
    decreases b, 0int,
{
    stmts_lets_size_from(b.statements@, 0)
}

/// Total frame bytes reserved by the `let` bindings of the statements from
/// index `i` on.
pub open spec fn stmts_lets_size_from(s: Seq<Expression>, i: int) -> int
    decreases s, s.len() - i,
{
    if i < 0 || i >= s.len() {
        0
    } else {
        expr_lets_size(s[i]) + stmts_lets_size_from(s, i + 1)
    }
}

/// One sequence prefixes another prefixing a third.
pub proof fn lemma_prefix_trans<A>(a: Seq<A>, b: Seq<A>, c: Seq<A>)
    requires
        a.is_prefix_of(b),
        b.is_prefix_of(c),
    ensures
        a.is_prefix_of(c),
{
    assert(c.subrange(0, a.len() as int) =~= b.subrange(0, a.len() as int));
}

/// A sequence prefixes its own extension.
pub proof fn lemma_concat_prefix<A>(a: Seq<A>, b: Seq<A>)
    ensures
        a.is_prefix_of(a + b),
{
    assert((a + b).subrange(0, a.len() as int) =~= a);
}

/// A `let` of a primitive type whose initializer is a literal assigned to
/// the let's own name.
pub open spec fn lit_let_shape(ls: LetStatement) -> bool {
    &&& ls.var_type is Primitive
    &&& match ls.assignment {
        Option::Some(a) => a.target@ == ls.name@ && (*a.expression.expr) is LitNumExpr,
        Option::None => false,
    }
}

/// The literal value of such a binding's initializer.
pub open spec fn lit_let_value(ls: LetStatement) -> i16 {
    (*ls.assignment->Some_0.expression.expr)->LitNumExpr_0
}

/// Such a binding compiles from the entry state alone: the name is unbound
/// and the frame budget admits the variable.
pub open spec fn lit_let_ok(table: Seq<(String, IdentId)>, next_offset: i16, ls: LetStatement)
    -> bool {
    &&& lit_let_shape(ls)
    &&& lookup_id(table, ls.name@) is None
    &&& next_offset as int + spec_primitive_type(ls.var_type->Primitive_0).spec_size()
        <= i16::MAX as int
}

/// The code such a binding emits: the literal into the result register,
/// stored at the scope's current offset.
pub open spec fn lit_let_code(ls: LetStatement, offset: i16) -> Seq<Instruction> {
    seq![
        Instruction::AddSignedValue(RESULT_REG, ZERO_REG, lit_let_value(ls)),
        Instruction::Store32(Operand::Const(offset), FRAME_POINTER, RESULT_REG),
    ]
}

/// A bare `return` of the empty expression.
pub open spec fn empty_return_shape(e: Expression) -> bool {
    match *e.expr {
        Expr::Return(inner) => (*inner.expr) is EmptyExpr,
        _ => false,
    }
}

/// A conditional over an empty condition expression, annotated boolean,
/// with an empty then-block, whose primitive-annotated branch types are
/// incompatible: its compilation is decided by the entry state and rejects
/// with a type error naming both branch types.
pub open spec fn if_mismatch_shape(global: Scope, local: Scope, st: IfStatement) -> bool {
    &&& (match spec_resolve(global, local, st.condition.rtype) {
        Option::Some(ct) => compatible(ct, Type::Bool),
        Option::None => false,
    })
    &&& (*st.condition.expr) is EmptyExpr
    &&& st.body.statements@.len() == 0
    &&& st.body.rtype is Primitive
    &&& (match st.else_block {
        Option::Some(b) => b.rtype is Primitive && !compatible(
            spec_primitive_type(b.rtype->Primitive_0),
            spec_primitive_type(st.body.rtype->Primitive_0),
        ),
        Option::None => false,
    })
}

/// The error such a conditional rejects with.
pub open spec fn if_mismatch_error(st: IfStatement) -> CodegenError {
    CodegenError::TypeMismatch {
        expected: spec_primitive_type(st.body.rtype->Primitive_0),
        found: spec_primitive_type(st.else_block->Some_0.rtype->Primitive_0),
    }
}

/// A body of exactly two statements: a `let` binding, then a bare
/// `return`.
pub open spec fn let_return_body(b: Block) -> bool {
    &&& b.statements@.len() == 2
    &&& (*b.statements@[0].expr) is LetExpr
    &&& empty_return_shape(b.statements@[1])
}

/// The environment-free form of `if_mismatch_shape`: with a primitive
/// condition annotation the shape holds in every pair of scopes.
pub open spec fn if_mismatch_shape_prim(st: IfStatement) -> bool {
    &&& st.condition.rtype is Primitive
    &&& compatible(spec_primitive_type(st.condition.rtype->Primitive_0), Type::Bool)
    &&& (*st.condition.expr) is EmptyExpr
    &&& st.body.statements@.len() == 0
    &&& st.body.rtype is Primitive
    &&& (match st.else_block {
        Option::Some(b) => b.rtype is Primitive && !compatible(
            spec_primitive_type(b.rtype->Primitive_0),
            spec_primitive_type(st.body.rtype->Primitive_0),
        ),
        Option::None => false,
    })
}

/// Every argument is a numeric literal with a primitive type annotation:
/// compiling the arguments can neither fail nor touch the scope, so the
/// callee checks are decided by the entry state.
pub open spec fn all_literal_args(args: Seq<Expression>) -> bool {
    forall|i: int|
        0 <= i < args.len() ==> (*(#[trigger] args[i]).expr) is LitNumExpr && args[i].rtype
            is Primitive
}

/// The instruction buffer and the label-name generator.
///
/// The buffer is append-only except for the single prologue patch performed
/// by `compile_global_fn`; the label counter is monotone, so no label is ever
/// issued twice.
pub struct CodeData {
    pub instructions: Vec<Instruction>,
    pub label_count: u64,
}

impl CodeData {
    /// Generate a unique label by keeping track of the number of labels
    /// generated and appending that count to a fixed prefix.
    pub fn next_unique_label(&mut self) -> (r: Result<LabelId, CodegenError>)
        ensures
            final(self).instructions == old(self).instructions,
            final(self).label_count >= old(self).label_count,
            r is Err ==> !(r->Err_0 is InternalError),
            old(self).label_count < u64::MAX ==> r == Ok::<LabelId, CodegenError>(
                LabelId::Gen(old(self).label_count),
            ) && final(self).label_count == old(self).label_count + 1,
            old(self).label_count == u64::MAX ==> r == Err::<LabelId, CodegenError>(
                CodegenError::TooManyLabels,
            ) && final(self).label_count == old(self).label_count,
    {
        if self.label_count == u64::MAX {
            return Err(CodegenError::TooManyLabels);
        }
        let l = LabelId::Gen(self.label_count);
        self.label_count = self.label_count + 1;
        Ok(l)
    }

    /// Compile a global variable: place its label, then either a word of
    /// static data (literal initializer), or reserved space sized by its
    /// primitive type (no initializer).  Any other initializer or type is an
    /// unsupported feature.
    pub fn compile_global_var(&mut self, scope: &Scope, var_id: usize) -> (r: Result<
        (),
        CodegenError,
    >)
        requires
            var_id < scope.vars@.len(),
            scope.wf(),
        ensures
            old(self).instructions@.is_prefix_of(final(self).instructions@),
            final(self).label_count == old(self).label_count,
            ({
                let v = scope.vars@[var_id as int];
                let pre = old(self).instructions@;
                let post = final(self).instructions@;
                match v.location {
                    Location::Label(l) => {
                        &&& post.len() > pre.len()
                        &&& post[pre.len() as int] == Instruction::Label(l)
                        &&& match v.assignment {
                            Option::Some(a) => match *a.expression.expr {
                                Expr::LitNumExpr(n) => r is Ok && post.len() == pre.len() + 2
                                    && (post.last() matches Instruction::AllocateWords(ws) && ws@
                                    =~= seq![n as i32]),
                                _ => r == Err::<(), CodegenError>(
                                    CodegenError::UnsupportedFeature {
                                        feature: Feature::NonLiteralGlobalInitializer,
                                        span: a.expression.span,
                                    },
                                ),
                            },
                            Option::None => match v.var_type {
                                TypeRef::Primitive(k) => r is Ok && post.len() == pre.len() + 2
                                    && post.last() == Instruction::AllocateSpace(
                                    spec_primitive_type(k).spec_size() as u32,
                                ),
                                TypeRef::Named(_) => r == Err::<(), CodegenError>(
                                    CodegenError::UnsupportedFeature {
                                        feature: Feature::NonPrimitiveGlobal,
                                        span: v.span,
                                    },
                                ),
                            },
                        }
                    },
                    _ => r == Err::<(), CodegenError>(CodegenError::InternalError)
                        && post =~= pre,
                }
            }),
    {
        // Add the variable's label; a global lives at a fixed symbolic
        // address, so any other location kind is an internal inconsistency.
        let label = match &scope.vars[var_id].location {
            Location::Label(l) => *l,
            _ => {
                return Err(CodegenError::InternalError);
            },
        };
        self.instructions.push(Instruction::Label(label));

        // Allocate and initialize the variable.
        match &scope.vars[var_id].assignment {
            // Initialized variables: only literal words are supported.
            Some(a) => {
                match &*a.expression.expr {
                    Expr::LitNumExpr(n) => {
                        let mut ws: Vec<i32> = Vec::new();
                        ws.push(*n as i32);
                        self.instructions.push(Instruction::AllocateWords(ws));
                        Ok(())
                    },
                    _ => Err(CodegenError::UnsupportedFeature {
                        feature: Feature::NonLiteralGlobalInitializer,
                        span: a.expression.span,
                    }),
                }
            },
            // Uninitialized variables: reserve space for the primitive type.
            None => {
                let size = match &scope.vars[var_id].var_type {
                    TypeRef::Primitive(k) => k.size(),
                    TypeRef::Named(_) => {
                        return Err(CodegenError::UnsupportedFeature {
                            feature: Feature::NonPrimitiveGlobal,
                            span: scope.vars[var_id].span,
                        });
                    },
                };
                self.instructions.push(Instruction::AllocateSpace(size));
                Ok(())
            },
        }
    }

    /// Append the instruction that loads a storage location into
    /// `RESULT_REG`.
    fn push_load(&mut self, loc: Location)
        ensures
            final(self).instructions@ =~= old(self).instructions@.push(load_instr(loc)),
            final(self).label_count == old(self).label_count,
    {
        match loc {
            Location::Label(l) => {
                self.instructions.push(Instruction::Load32(RESULT_REG, Operand::Unknown(l), ZERO_REG));
            },
            Location::Offset(o) => {
                self.instructions.push(Instruction::Load32(RESULT_REG, Operand::Const(o), FRAME_POINTER));
            },
            Location::Register(id) => {
                self.instructions.push(Instruction::AddSigned(RESULT_REG, id, ZERO_REG));
            },
        }
    }

    /// Append the instruction that stores `RESULT_REG` into a storage
    /// location.
    fn push_store(&mut self, loc: Location)
        ensures
            final(self).instructions@ =~= old(self).instructions@.push(store_instr(loc)),
            final(self).label_count == old(self).label_count,
    {
        match loc {
            Location::Label(l) => {
                self.instructions.push(Instruction::Store32(Operand::Unknown(l), ZERO_REG, RESULT_REG));
            },
            Location::Offset(o) => {
                self.instructions.push(Instruction::Store32(Operand::Const(o), FRAME_POINTER, RESULT_REG));
            },
            Location::Register(id) => {
                self.instructions.push(Instruction::AddSigned(id, RESULT_REG, ZERO_REG));
            },
        }
    }

    /// Compile every statement of a block, in order, into the given scope.
    pub fn compile_block(&mut self, global: &Scope, local: &mut Scope, block: &Block) -> (r:
        Result<(), CodegenError>)
        requires
            global.wf(),
            old(local).wf(),
        ensures
            old(self).instructions@.is_prefix_of(final(self).instructions@),
            final(self).label_count >= old(self).label_count,
            r is Err ==> !(r->Err_0 is InternalError),
            final(local).next_offset >= old(local).next_offset,
            final(local).end_label == old(local).end_label,
            r is Ok ==> final(local).wf() && final(local).loop_ends@ =~= old(local).loop_ends@
                && final(local).next_offset as int == old(local).next_offset as int
                + block_lets_size(*block),
            // A block with no statements compiles, emits nothing, and
            // leaves the scope untouched.
            block.statements@.len() == 0 ==> r is Ok && final(self).instructions@ =~= old(self).instructions@ && *final(local) == *old(local),
            // A single unresolvable argument-free call fails, naming the
            // identifier.
            block.statements@.len() == 1 ==> (match *block.statements@[0].expr {
                Expr::CallExpr(c) => (c.args@.len() == 0 && spec_get_ident(
                    *global,
                    *old(local),
                    c.name@,
                ) is None) ==> r == Err::<(), CodegenError>(
                    CodegenError::IdentifierNotFound { name: c.name, span: c.span },
                ),
                _ => true,
            }),
            // A single decided branch-type mismatch fails, naming both
            // types.
            block.statements@.len() == 1 ==> (match *block.statements@[0].expr {
                Expr::IfExpr(st) => (if_mismatch_shape(*global, *old(local), st) && old(self).label_count < u64::MAX - 1) ==> r == Err::<(), CodegenError>(
                    if_mismatch_error(st),
                ),
                _ => true,
            }),
            // A decidable `let`-then-`return` body compiles to the load,
            // the store, and the jump to the function's end label.
            (let_return_body(*block) && lit_let_ok(
                old(local).ident_table@,
                old(local).next_offset,
                (*block.statements@[0].expr)->LetExpr_0,
            )) ==> r is Ok && final(self).instructions@ =~= old(self).instructions@
                + lit_let_code(
                (*block.statements@[0].expr)->LetExpr_0,
                old(local).next_offset,
            ).push(Instruction::Jump(old(local).end_label)),
        decreases *block,
    {
        let n = block.statements.len();
        proof {
            assert(old(self).instructions@.is_prefix_of(self.instructions@));
        }
        if n == 0 {
            return Ok(());
        }
        for i in 0..n
            invariant
                global.wf(),
                local.wf(),
                n == block.statements@.len(),
                old(self).instructions@.is_prefix_of(self.instructions@),
                self.label_count >= old(self).label_count,
                local.end_label == old(local).end_label,
                local.loop_ends@ =~= old(local).loop_ends@,
                local.next_offset as int + stmts_lets_size_from(block.statements@, i as int)
                    == old(local).next_offset as int + block_lets_size(*block),
                local.next_offset >= old(local).next_offset,
                i == 0 ==> *local == *old(local) && self.instructions@ =~= old(self).instructions@ && self.label_count == old(self).label_count,
                (n == 1 && (match *block.statements@[0].expr {
                    Expr::CallExpr(c) => c.args@.len() == 0 && spec_get_ident(
                        *global,
                        *old(local),
                        c.name@,
                    ) is None,
                    _ => false,
                })) ==> i == 0,
                (n == 1 && (match *block.statements@[0].expr {
                    Expr::IfExpr(st) => if_mismatch_shape(*global, *old(local), st) && old(self).label_count < u64::MAX - 1,
                    _ => false,
                })) ==> i == 0,
                (let_return_body(*block) && lit_let_ok(
                    old(local).ident_table@,
                    old(local).next_offset,
                    (*block.statements@[0].expr)->LetExpr_0,
                )) ==> (i == 1 ==> self.instructions@ =~= old(self).instructions@ + lit_let_code(
                    (*block.statements@[0].expr)->LetExpr_0,
                    old(local).next_offset,
                )) && (i == 2 ==> self.instructions@ =~= old(self).instructions@ + lit_let_code(
                    (*block.statements@[0].expr)->LetExpr_0,
                    old(local).next_offset,
                ).push(Instruction::Jump(old(local).end_label))),
            decreases n - i,
        {
            let stmt = &block.statements[i];
            proof {
                assert(decreases_to!(*block => block.statements));
                assert(decreases_to!(block.statements => block.statements@));
                assert(decreases_to!(block.statements@ => block.statements@[i as int]));
            }
            let ghost mid = self.instructions@;
            match self.compile_expression(global, local, stmt) {
                Ok(()) => {},
                Err(e) => {
                    proof {
                        lemma_prefix_trans(old(self).instructions@, mid, self.instructions@);
                    }
                    return Err(e);
                },
            }
            proof {
                lemma_prefix_trans(old(self).instructions@, mid, self.instructions@);
            }
        }
        Ok(())
    }

    /// Compile one expression; its value, if any, is left in `RESULT_REG`.
    pub fn compile_expression(&mut self, global: &Scope, local: &mut Scope, expression: &Expression)
        -> (r: Result<(), CodegenError>)
        requires
            global.wf(),
            old(local).wf(),
        ensures
            old(self).instructions@.is_prefix_of(final(self).instructions@),
            final(self).label_count >= old(self).label_count,
            r is Err ==> !(r->Err_0 is InternalError),
            final(local).next_offset >= old(local).next_offset,
            final(local).end_label == old(local).end_label,
            r is Ok ==> final(local).wf() && final(local).loop_ends@ =~= old(local).loop_ends@
                && final(local).next_offset as int == old(local).next_offset as int
                + expr_lets_size(*expression),
            // `break` jumps to the innermost loop's end label; outside any
            // loop it is a reported error carrying the statement's span.
            (*expression.expr) is Break ==> *final(local) == *old(local) && (if old(local).loop_ends@.len() > 0 {
                r is Ok && final(self).instructions@ =~= old(self).instructions@.push(
                    Instruction::Jump(old(local).loop_ends@.last()),
                )
            } else {
                r == Err::<(), CodegenError>(
                    CodegenError::BreakOutsideLoop { span: expression.span },
                ) && final(self).instructions@ =~= old(self).instructions@
            }),
            // A numeric literal becomes an immediate add against the zero
            // register.
            (*expression.expr) matches Expr::LitNumExpr(v) ==> r is Ok && final(self).instructions@ =~= old(self).instructions@.push(
                Instruction::AddSignedValue(RESULT_REG, ZERO_REG, v),
            ) && *final(local) == *old(local) && final(self).label_count == old(self).label_count,
            // An empty expression emits nothing.
            (*expression.expr) is EmptyExpr ==> r is Ok && final(self).instructions@ =~= old(self).instructions@ && *final(local) == *old(local) && final(self).label_count == old(self).label_count,
            // A raw instruction is passed through verbatim.
            (*expression.expr) matches Expr::RawOpExpr(s) ==> r is Ok && final(self).instructions@ =~= old(self).instructions@.push(Instruction::RawOp(s)) && *final(local) == *old(local),
            // `return` compiles its expression and jumps to the enclosing
            // function's end label.
            (*expression.expr) is Return && r is Ok ==> final(self).instructions@.len() > old(self).instructions@.len() && final(self).instructions@.last() == Instruction::Jump(
                old(local).end_label,
            ),
            // A variable reference must name a variable; its value is loaded
            // from the variable's storage location.
            (*expression.expr) matches Expr::VariableExpr(name) ==> *final(local) == *old(local)
                && (match spec_get_ident(
                *global,
                *old(local),
                name@,
            ) {
                Option::None => r == Err::<(), CodegenError>(
                    CodegenError::IdentifierNotFound {
                        name: name,
                        span: (InputSpan { start: 0, end: 0 }),
                    },
                ),
                Option::Some(ir) => match spec_ident_id(ir) {
                    IdentId::FnIdentId(_) => r == Err::<(), CodegenError>(
                        CodegenError::ExpectedVariable { name: name },
                    ),
                    IdentId::VarIdentId(_) => r is Ok && final(self).instructions@ =~= old(self).instructions@.push(load_instr(spec_var_location(*global, *old(local), ir))),
                },
            }),
            // `return;` compiles to a single jump to the enclosing
            // function's end label.
            empty_return_shape(*expression) ==> r is Ok && final(self).instructions@ =~= old(self).instructions@.push(Instruction::Jump(old(local).end_label)) && *final(local)
                == *old(local) && final(self).label_count == old(self).label_count,
            // A literal-initialized binding of an unbound primitive name
            // emits the load-store pair at the scope's current offset.
            (match *expression.expr {
                Expr::LetExpr(ls) => lit_let_ok(
                    old(local).ident_table@,
                    old(local).next_offset,
                    ls,
                ) ==> r is Ok && final(self).instructions@ =~= old(self).instructions@
                    + lit_let_code(ls, old(local).next_offset),
                _ => true,
            }),
            // An argument-free call of an unresolvable name fails, naming
            // the identifier.
            (match *expression.expr {
                Expr::CallExpr(c) => (c.args@.len() == 0 && spec_get_ident(
                    *global,
                    *old(local),
                    c.name@,
                ) is None) ==> r == Err::<(), CodegenError>(
                    CodegenError::IdentifierNotFound { name: c.name, span: c.span },
                ),
                _ => true,
            }),
            // A decided branch-type mismatch rejects with the error naming
            // both types.
            (match *expression.expr {
                Expr::IfExpr(st) => (if_mismatch_shape(*global, *old(local), st) && old(self).label_count < u64::MAX - 1) ==> r == Err::<(), CodegenError>(
                    if_mismatch_error(st),
                ),
                _ => true,
            }),
        decreases *expression,
    {
        proof {
            assert(decreases_to!(*expression => expression.expr));
        }
        match &*expression.expr {
            Expr::IfExpr(inner) => self.compile_if(global, local, inner),
            Expr::LoopExpr(inner) => self.compile_loop(global, local, inner),
            Expr::CallExpr(inner) => self.compile_call(global, local, inner),
            Expr::Break => {
                if local.loop_ends.len() > 0 {
                    let label = local.loop_ends[local.loop_ends.len() - 1];
                    self.instructions.push(Instruction::Jump(label));
                    Ok(())
                } else {
                    Err(CodegenError::BreakOutsideLoop { span: expression.span })
                }
            },
            Expr::Return(inner) => {
                let ghost mid = self.instructions@;
                match self.compile_expression(global, local, inner) {
                    Ok(()) => {},
                    Err(e) => {
                        return Err(e);
                    },
                }
                let return_label = local.end_label;
                self.instructions.push(Instruction::Jump(return_label));
                proof {
                    lemma_prefix_trans(mid, self.instructions@.drop_last(), self.instructions@);
                }
                Ok(())
            },
            Expr::LetExpr(inner) => self.compile_let(global, local, inner),
            Expr::AssignExpr(inner) => self.compile_assign(global, local, inner),
            Expr::VariableExpr(name) => {
                let ir = match get_ident(global, local, name, InputSpan::invalid()) {
                    Ok(ir) => ir,
                    Err(e) => {
                        return Err(e);
                    },
                };
                let loc = match ir {
                    IdentRef::LocalRef(id) => match id {
                        IdentId::FnIdentId(_) => {
                            return Err(CodegenError::ExpectedVariable { name: name.clone() });
                        },
                        IdentId::VarIdentId(k) => local.vars[k].location,
                    },
                    IdentRef::GlobalRef(id) => match id {
                        IdentId::FnIdentId(_) => {
                            return Err(CodegenError::ExpectedVariable { name: name.clone() });
                        },
                        IdentId::VarIdentId(k) => global.vars[k].location,
                    },
                };
                self.push_load(loc);
                Ok(())
            },
            Expr::LitNumExpr(value) => {
                self.instructions.push(Instruction::AddSignedValue(RESULT_REG, ZERO_REG, *value));
                Ok(())
            },
            Expr::RawOpExpr(inner) => {
                self.instructions.push(Instruction::RawOp(inner.clone()));
                Ok(())
            },
            Expr::EmptyExpr => Ok(()),
        }
    }

    /// Compile a conditional.
    ///
    /// The condition must be boolean.  With an `else` block both branches'
    /// result types must be compatible (a divergent branch is compatible
    /// with anything); without one, the `then` block must have type `Unit`.
    pub fn compile_if(&mut self, global: &Scope, local: &mut Scope, if_statement: &IfStatement)
        -> (r: Result<(), CodegenError>)
        requires
            global.wf(),
            old(local).wf(),
        ensures
            old(self).instructions@.is_prefix_of(final(self).instructions@),
            final(self).label_count >= old(self).label_count,
            r is Err ==> !(r->Err_0 is InternalError),
            final(local).next_offset >= old(local).next_offset,
            final(local).end_label == old(local).end_label,
            r is Ok ==> final(local).wf() && final(local).loop_ends@ =~= old(local).loop_ends@
                && final(local).next_offset as int == old(local).next_offset as int
                + expr_lets_size(if_statement.condition) + block_lets_size(if_statement.body)
                + (match if_statement.else_block {
                    Option::Some(b) => block_lets_size(b),
                    Option::None => 0,
                }),
            // A non-boolean condition is rejected with a type error naming
            // both types, before anything is emitted.
            match spec_resolve(*global, *old(local), if_statement.condition.rtype) {
                Option::None => r is Err && final(self).instructions@ =~= old(self).instructions@,
                Option::Some(ct) => !compatible(ct, Type::Bool) ==> (r matches Err(e) && (e
                    matches CodegenError::TypeMismatch { expected: ee, found: ff } && type_eq(
                    ee,
                    Type::Bool,
                ) && type_eq(ff, ct))) && final(self).instructions@ =~= old(self).instructions@,
            },
            // A compiled conditional ends with its end label: a fresh label
            // issued during this construct.
            r is Ok ==> final(self).instructions@.len() > old(self).instructions@.len() && (
            final(self).instructions@.last() matches Instruction::Label(l) && (l
                matches LabelId::Gen(c) && old(self).label_count <= c < final(self).label_count)),
            // With an else block, the then-branch ends with a jump over
            // the else code to the end label, immediately followed by the
            // distinct label that opens the else branch.
            r is Ok && if_statement.else_block is Some ==> (final(self).instructions@.last()
                matches Instruction::Label(l) && exists|p: int|
                old(self).instructions@.len() <= p && p + 1 < final(self).instructions@.len()
                    && (#[trigger] final(self).instructions@[p]) == Instruction::Jump(l) && (
                final(self).instructions@[p + 1] matches Instruction::Label(l2) && l2 != l)),
            // Without an else block, a single fresh label serves as both
            // branch target and end: the conditional jump emitted after the
            // condition targets the very label that ends the conditional.
            r is Ok && if_statement.else_block is None ==> (final(self).instructions@.last()
                matches Instruction::Label(l) && exists|p: int|
                old(self).instructions@.len() <= p < final(self).instructions@.len() && (
                #[trigger] final(self).instructions@[p]) == Instruction::JumpIfZero(
                    RESULT_REG,
                    l,
                )),
            r is Ok ==> (spec_resolve(*global, *old(local), if_statement.condition.rtype)
                matches Option::Some(ct) && compatible(ct, Type::Bool)),
            // Without an `else` block the conditional must have type `Unit`.
            r is Ok && if_statement.else_block is None && if_statement.body.rtype is Primitive
                ==> compatible(
                spec_primitive_type(if_statement.body.rtype->Primitive_0),
                Type::Unit,
            ),
            // With an `else` block the branch types must be compatible.
            r is Ok && if_statement.else_block is Some && if_statement.body.rtype is Primitive
                && if_statement.else_block->Some_0.rtype is Primitive ==> compatible(
                spec_primitive_type(if_statement.else_block->Some_0.rtype->Primitive_0),
                spec_primitive_type(if_statement.body.rtype->Primitive_0),
            ),
            // A well-typed conditional over an empty condition expression
            // and empty then-block, without else, always compiles: the
            // conditional jump and the shared end label, which here is the
            // else label itself.
            ((match spec_resolve(*global, *old(local), if_statement.condition.rtype) {
                Option::Some(ct) => compatible(ct, Type::Bool),
                Option::None => false,
            }) && (*if_statement.condition.expr) is EmptyExpr && if_statement.else_block is None
                && if_statement.body.statements@.len() == 0 && (match spec_resolve(
                *global,
                *old(local),
                if_statement.body.rtype,
            ) {
                Option::Some(bt) => compatible(bt, Type::Unit),
                Option::None => false,
            }) && old(self).label_count < u64::MAX) ==> r is Ok && final(self).instructions@
                =~= old(self).instructions@.push(
                Instruction::JumpIfZero(RESULT_REG, LabelId::Gen(old(self).label_count)),
            ).push(Instruction::Label(LabelId::Gen(old(self).label_count))),
            // Without an else block, a non-Unit then-type is rejected with a
            // type error naming Unit and the found type.
            ((match spec_resolve(*global, *old(local), if_statement.condition.rtype) {
                Option::Some(ct) => compatible(ct, Type::Bool),
                Option::None => false,
            }) && (*if_statement.condition.expr) is EmptyExpr && if_statement.else_block is None
                && if_statement.body.statements@.len() == 0 && if_statement.body.rtype
                is Primitive && !compatible(
                spec_primitive_type(if_statement.body.rtype->Primitive_0),
                Type::Unit,
            ) && old(self).label_count < u64::MAX) ==> r == Err::<(), CodegenError>(
                CodegenError::TypeMismatch {
                    expected: Type::Unit,
                    found: spec_primitive_type(if_statement.body.rtype->Primitive_0),
                },
            ),
            // With an else block, incompatible branch types are rejected
            // with a type error naming both.
            ((match spec_resolve(*global, *old(local), if_statement.condition.rtype) {
                Option::Some(ct) => compatible(ct, Type::Bool),
                Option::None => false,
            }) && (*if_statement.condition.expr) is EmptyExpr
                && if_statement.body.statements@.len() == 0 && if_statement.body.rtype
                is Primitive && (match if_statement.else_block {
                Option::Some(b) => b.rtype is Primitive && !compatible(
                    spec_primitive_type(b.rtype->Primitive_0),
                    spec_primitive_type(if_statement.body.rtype->Primitive_0),
                ),
                Option::None => false,
            }) && old(self).label_count < u64::MAX - 1) ==> r == Err::<(), CodegenError>(
                CodegenError::TypeMismatch {
                    expected: spec_primitive_type(if_statement.body.rtype->Primitive_0),
                    found: spec_primitive_type(
                        if_statement.else_block->Some_0.rtype->Primitive_0,
                    ),
                },
            ),
        decreases *if_statement,
    {
        // Check that the condition is boolean.
        let cond_type = match resolve_type(global, local, &if_statement.condition.rtype) {
            Ok(t) => t,
            Err(e) => {
                return Err(e);
            },
        };
        let bool_type = Type::Bool;
        proof {
            let ct = spec_resolve(*global, *local, if_statement.condition.rtype)->Some_0;
            lemma_compatible_congruence(cond_type, ct, Type::Bool);
        }
        match check_type(&cond_type, &bool_type) {
            Ok(()) => {},
            Err(e) => {
                proof {
                    let ct = spec_resolve(*global, *local, if_statement.condition.rtype)->Some_0;
                    if let CodegenError::TypeMismatch { expected: ee, found: ff } = &e {
                        lemma_type_eq_trans(*ff, cond_type, ct);
                    }
                }
                return Err(e);
            },
        }

        let ghost pre = self.instructions@;
        match self.compile_expression(global, local, &if_statement.condition) {
            Ok(()) => {},
            Err(e) => {
                return Err(e);
            },
        }

        let else_label = match self.next_unique_label() {
            Ok(l) => l,
            Err(e) => {
                return Err(e);
            },
        };
        // With no else block, the end label is the else label itself.
        let end_label = match &if_statement.else_block {
            Some(_) => match self.next_unique_label() {
                Ok(l) => l,
                Err(e) => {
                    return Err(e);
                },
            },
            None => else_label,
        };
        self.instructions.push(Instruction::JumpIfZero(RESULT_REG, else_label));
        proof {
            lemma_prefix_trans(old(self).instructions@, pre, self.instructions@);
        }

        // Compile the then block.
        let ghost mid = self.instructions@;
        match self.compile_block(global, local, &if_statement.body) {
            Ok(()) => {},
            Err(e) => {
                proof {
                    lemma_prefix_trans(old(self).instructions@, mid, self.instructions@);
                }
                return Err(e);
            },
        }
        proof {
            lemma_prefix_trans(old(self).instructions@, mid, self.instructions@);
        }
        let then_rtype = match resolve_type(global, local, &if_statement.body.rtype) {
            Ok(t) => t,
            Err(e) => {
                return Err(e);
            },
        };

        let ghost mut jpos: int = 0;
        match &if_statement.else_block {
            Some(block) => {
                // Both branches must produce compatible types.
                let else_rtype = match resolve_type(global, local, &block.rtype) {
                    Ok(t) => t,
                    Err(e) => {
                        return Err(e);
                    },
                };
                match check_type(&else_rtype, &then_rtype) {
                    Ok(()) => {},
                    Err(e) => {
                        proof {
                            if if_statement.body.rtype is Primitive && block.rtype is Primitive {
                                let kt = if_statement.body.rtype->Primitive_0;
                                let ke = block.rtype->Primitive_0;
                                if let CodegenError::TypeMismatch { expected: ee, found: ff } = &e {
                                    lemma_type_eq_trans(*ee, then_rtype, spec_primitive_type(kt));
                                    lemma_type_eq_primitive(*ee, kt);
                                    lemma_type_eq_trans(*ff, else_rtype, spec_primitive_type(ke));
                                    lemma_type_eq_primitive(*ff, ke);
                                }
                            }
                        }
                        return Err(e);
                    },
                }
                proof {
                    if if_statement.body.rtype is Primitive && block.rtype is Primitive {
                        let pt = spec_primitive_type(if_statement.body.rtype->Primitive_0);
                        let pe = spec_primitive_type(block.rtype->Primitive_0);
                        lemma_compatible_congruence(else_rtype, pe, then_rtype);
                        lemma_type_eq_sym(then_rtype, pt);
                        lemma_compatible_congruence(then_rtype, pt, pe);
                        lemma_type_eq_sym(pe, then_rtype);
                    }
                }
                // Jump from the then block over the else block.
                self.instructions.push(Instruction::Jump(end_label));
                self.instructions.push(Instruction::Label(else_label));
                let ghost mid2 = self.instructions@;
                match self.compile_block(global, local, block) {
                    Ok(()) => {},
                    Err(e) => {
                        proof {
                            lemma_prefix_trans(old(self).instructions@, mid2, self.instructions@);
                        }
                        return Err(e);
                    },
                }
                proof {
                    lemma_prefix_trans(old(self).instructions@, mid2, self.instructions@);
                    jpos = mid2.len() - 2;
                    assert(self.instructions@.subrange(0, mid2.len() as int) == mid2);
                    assert(self.instructions@[jpos] == self.instructions@.subrange(
                        0,
                        mid2.len() as int,
                    )[jpos]);
                    assert(self.instructions@[jpos + 1] == self.instructions@.subrange(
                        0,
                        mid2.len() as int,
                    )[jpos + 1]);
                    assert(self.instructions@[jpos] == Instruction::Jump(end_label));
                    assert(self.instructions@[jpos + 1] == Instruction::Label(else_label));
                    assert(jpos >= old(self).instructions@.len());
                }
            },
            None => {
                // Without an else block the conditional must be Unit-typed.
                match check_type(&then_rtype, &Type::Unit) {
                    Ok(()) => {},
                    Err(e) => {
                        proof {
                            if if_statement.body.rtype is Primitive {
                                let kt = if_statement.body.rtype->Primitive_0;
                                if let CodegenError::TypeMismatch { expected: ee, found: ff } = &e {
                                    lemma_type_eq_trans(*ff, then_rtype, spec_primitive_type(kt));
                                    lemma_type_eq_primitive(*ff, kt);
                                }
                            }
                        }
                        return Err(e);
                    },
                }
                proof {
                    if spec_resolve(*global, *local, if_statement.body.rtype) is Some {
                        let bt = spec_resolve(*global, *local, if_statement.body.rtype)->Some_0;
                        lemma_compatible_congruence(then_rtype, bt, Type::Unit);
                    }
                }
            },
        }

        let ghost xb2 = self.instructions@;
        self.instructions.push(Instruction::Label(end_label));
        proof {
            if if_statement.else_block is Some {
                assert(self.instructions@[jpos] == xb2[jpos]);
                assert(self.instructions@[jpos + 1] == xb2[jpos + 1]);
                assert(self.instructions@[jpos] == Instruction::Jump(end_label));
                assert(self.instructions@[jpos + 1] == Instruction::Label(else_label));
                assert(else_label != end_label);
                assert(self.instructions@.last() == Instruction::Label(end_label));
            }
            if if_statement.else_block is None {
                let p = mid.len() - 1;
                assert(xb2.subrange(0, mid.len() as int) == mid);
                assert(self.instructions@[p] == xb2[p]);
                assert(xb2[p] == xb2.subrange(0, mid.len() as int)[p]);
                assert(self.instructions@[p] == Instruction::JumpIfZero(RESULT_REG, end_label));
                assert(self.instructions@.last() == Instruction::Label(end_label));
            }
        }
        Ok(())
    }

    /// Compile a loop.
    ///
    /// The body must have type `Unit`.  A fresh end label is pushed onto the
    /// loop-end stack for the duration of the body, so that `break` can
    /// target the innermost loop, and is popped and placed after the
    /// back-jump.
    pub fn compile_loop(&mut self, global: &Scope, local: &mut Scope, loop_statement: &LoopStatement)
        -> (r: Result<(), CodegenError>)
        requires
            global.wf(),
            old(local).wf(),
        ensures
            old(self).instructions@.is_prefix_of(final(self).instructions@),
            final(self).label_count >= old(self).label_count,
            r is Err ==> !(r->Err_0 is InternalError),
            final(local).next_offset >= old(local).next_offset,
            final(local).end_label == old(local).end_label,
            r is Ok ==> final(local).wf() && final(local).loop_ends@ =~= old(local).loop_ends@
                && final(local).next_offset as int == old(local).next_offset as int
                + block_lets_size(loop_statement.body),
            // A loop whose body is not Unit-typed is rejected, before
            // anything is emitted.
            match spec_resolve(*global, *old(local), loop_statement.body.rtype) {
                Option::None => r is Err && final(self).instructions@ =~= old(self).instructions@,
                Option::Some(bt) => !compatible(bt, Type::Unit) ==> (r matches Err(e) && (e
                    matches CodegenError::TypeMismatch { expected: ee, found: ff } && type_eq(
                    ee,
                    Type::Unit,
                ) && type_eq(ff, bt))) && final(self).instructions@ =~= old(self).instructions@,
            },
            // A compiled loop opens with its start label and ends with the
            // back-jump and the end label: two distinct fresh labels.
            r is Ok ==> final(self).instructions@.len() >= old(self).instructions@.len() + 3
                && final(self).instructions@[old(self).instructions@.len() as int]
                == Instruction::Label(LabelId::Gen(old(self).label_count)) && final(self).instructions@[final(self).instructions@.len() - 2] == Instruction::Jump(
                LabelId::Gen(old(self).label_count),
            ) && final(self).instructions@.last() == Instruction::Label(
                LabelId::Gen((old(self).label_count + 1) as u64),
            ),
            r is Ok ==> (spec_resolve(*global, *old(local), loop_statement.body.rtype)
                matches Option::Some(bt) && compatible(bt, Type::Unit)),
            // Once the body type checks and a label can be issued, the loop
            // start label is placed, whatever happens inside the body.
            (spec_resolve(*global, *old(local), loop_statement.body.rtype)
                matches Option::Some(bt) && compatible(bt, Type::Unit)) && old(self).label_count
                < u64::MAX ==> final(self).instructions@.len() > old(self).instructions@.len()
                && final(self).instructions@[old(self).instructions@.len() as int]
                == Instruction::Label(LabelId::Gen(old(self).label_count)),
        decreases *loop_statement,
    {
        // Check that the body of the loop returns the correct type.
        let body_rtype = match resolve_type(global, local, &loop_statement.body.rtype) {
            Ok(t) => t,
            Err(e) => {
                return Err(e);
            },
        };
        let unit_type = Type::Unit;
        proof {
            let bt = spec_resolve(*global, *local, loop_statement.body.rtype)->Some_0;
            lemma_compatible_congruence(body_rtype, bt, Type::Unit);
        }
        match check_type(&body_rtype, &unit_type) {
            Ok(()) => {},
            Err(e) => {
                proof {
                    let bt = spec_resolve(*global, *local, loop_statement.body.rtype)->Some_0;
                    if let CodegenError::TypeMismatch { expected: ee, found: ff } = &e {
                        lemma_type_eq_trans(*ff, body_rtype, bt);
                    }
                }
                return Err(e);
            },
        }

        let start_label = match self.next_unique_label() {
            Ok(l) => l,
            Err(e) => {
                return Err(e);
            },
        };
        self.instructions.push(Instruction::Label(start_label));

        // The end label is pushed so that it can be used by breaks.
        let end_label = match self.next_unique_label() {
            Ok(l) => l,
            Err(e) => {
                return Err(e);
            },
        };
        local.loop_ends.push(end_label);

        let ghost mid = self.instructions@;
        match self.compile_block(global, local, &loop_statement.body) {
            Ok(()) => {},
            Err(e) => {
                proof {
                    lemma_prefix_trans(old(self).instructions@, mid, self.instructions@);
                    let sub = self.instructions@.subrange(0, mid.len() as int);
                    assert(sub == mid);
                    assert(self.instructions@[old(self).instructions@.len() as int] == sub[old(self).instructions@.len() as int]);
                }
                return Err(e);
            },
        }
        let ghost x2 = self.instructions@;
        proof {
            lemma_prefix_trans(old(self).instructions@, mid, self.instructions@);
            assert(x2.subrange(0, mid.len() as int) == mid);
        }

        // Jump back to the start, then place the end label.
        self.instructions.push(Instruction::Jump(start_label));
        let end_label2 = match local.loop_ends.pop() {
            Some(l) => l,
            None => {
                // Unreachable: the body preserves the loop-end stack, which
                // holds the label pushed above.
                proof {
                    assert(false);
                }
                return Err(CodegenError::InternalError);
            },
        };
        self.instructions.push(Instruction::Label(end_label2));
        proof {
            assert(self.instructions@ =~= x2.push(Instruction::Jump(start_label)).push(
                Instruction::Label(end_label2),
            ));
            let sub = self.instructions@.subrange(0, mid.len() as int);
            assert(sub =~= mid) by {
                assert forall|ii: int| 0 <= ii < mid.len() implies sub[ii] == mid[ii] by {
                    assert(sub[ii] == self.instructions@[ii]);
                    assert(self.instructions@[ii] == x2[ii]);
                    assert(x2[ii] == x2.subrange(0, mid.len() as int)[ii]);
                }
            }
            assert(self.instructions@[old(self).instructions@.len() as int] == sub[old(self).instructions@.len() as int]);
        }
        Ok(())
    }

    /// Compile a function call.
    ///
    /// Arguments are compiled left to right; each is stored at the stack
    /// pointer, which is then advanced one word.  The callee must be a
    /// function of matching arity and parameter types.  After the call
    /// instruction the stack pointer is restored by the total argument
    /// bytes.
    #[verifier::rlimit(60)]
    pub fn compile_call(&mut self, global: &Scope, local: &mut Scope, call: &FunctionCall) -> (r:
        Result<(), CodegenError>)
        requires
            global.wf(),
            old(local).wf(),
        ensures
            old(self).instructions@.is_prefix_of(final(self).instructions@),
            final(self).label_count >= old(self).label_count,
            r is Err ==> !(r->Err_0 is InternalError),
            final(local).next_offset >= old(local).next_offset,
            final(local).end_label == old(local).end_label,
            r is Ok ==> final(local).wf() && final(local).loop_ends@ =~= old(local).loop_ends@
                && final(local).next_offset as int == old(local).next_offset as int
                + stmts_lets_size_from(call.args@, 0),
            // The emitted code decomposes into one push segment per
            // argument, then the call to the callee's entry label, then the
            // stack restore of the bytes advanced: one word per argument.
            r is Ok ==> call_code_shape(
                old(self).instructions@,
                final(self).instructions@,
                call.args@.len() as int,
                spec_fn_location(
                    *global,
                    *final(local),
                    spec_get_ident(*global, *final(local), call.name@)->Some_0,
                ),
            ) && 4 * call.args@.len() <= u16::MAX,
            // The callee must name a function whose arity the call matches
            // exactly.
            r is Ok ==> (match spec_get_ident(*global, *final(local), call.name@) {
                Option::Some(ir) => spec_ident_id(ir) is FnIdentId && spec_fn_arity(
                    *global,
                    *final(local),
                    ir,
                ) == call.args@.len(),
                Option::None => false,
            }),
            // With literal arguments the callee checks are decided by the
            // entry scope: an unresolvable callee is reported by name, a
            // variable callee and a wrong argument count with their own
            // errors.
            (all_literal_args(call.args@) && 4 * call.args@.len() <= u16::MAX && spec_get_ident(
                *global,
                *old(local),
                call.name@,
            ) is None) ==> r == Err::<(), CodegenError>(
                CodegenError::IdentifierNotFound { name: call.name, span: call.span },
            ),
            (all_literal_args(call.args@) && 4 * call.args@.len() <= u16::MAX && (
            match spec_get_ident(*global, *old(local), call.name@) {
                Option::Some(ir) => spec_ident_id(ir) is VarIdentId,
                Option::None => false,
            })) ==> r == Err::<(), CodegenError>(
                CodegenError::ExpectedFunction { name: call.name },
            ),
            (all_literal_args(call.args@) && 4 * call.args@.len() <= u16::MAX && (
            match spec_get_ident(*global, *old(local), call.name@) {
                Option::Some(ir) => spec_ident_id(ir) is FnIdentId && spec_fn_arity(
                    *global,
                    *old(local),
                    ir,
                ) != call.args@.len(),
                Option::None => false,
            })) ==> (r matches Err(e) && (e matches CodegenError::ArityMismatch {
                expected_args,
                found_args,
            } && found_args == call.args@.len() && expected_args as int == spec_fn_arity(
                *global,
                *old(local),
                spec_get_ident(*global, *old(local), call.name@)->Some_0,
            ))),
            // Each primitive-annotated argument is positionally compatible
            // with the callee's declared parameter type.
            r is Ok ==> forall|i: int|
                0 <= i < call.args@.len() && (#[trigger] call.args@[i]).rtype is Primitive
                    ==> compatible(
                    spec_primitive_type(call.args@[i].rtype->Primitive_0),
                    spec_fn_arg_type(
                        *global,
                        *final(local),
                        spec_get_ident(*global, *final(local), call.name@)->Some_0,
                        i,
                    ),
                ),
        decreases *call,
    {
        let mut call_args: Vec<Type> = Vec::new();
        let mut stack_offset: u32 = 0;
        let ghost mut segs: Seq<Seq<Instruction>> = Seq::empty();
        let ghost pre = self.instructions@;
        proof {
            assert(segs.flatten() =~= Seq::<Instruction>::empty());
            assert(self.instructions@ =~= pre + segs.flatten());
        }
        let n = call.args.len();
        for i in 0..n
            invariant
                global.wf(),
                local.wf(),
                n == call.args@.len(),
                pre == old(self).instructions@,
                self.instructions@ =~= pre + segs.flatten(),
                arg_push_segments(segs, i as int),
                call_args@.len() == i,
                stack_offset <= u16::MAX,
                stack_offset as int == 4 * (i as int),
                all_literal_args(call.args@) ==> *local == *old(local),
                n == 0 ==> *local == *old(local),
                self.label_count >= old(self).label_count,
                local.end_label == old(local).end_label,
                local.loop_ends@ =~= old(local).loop_ends@,
                local.next_offset as int + stmts_lets_size_from(call.args@, i as int) == old(local).next_offset as int + stmts_lets_size_from(call.args@, 0),
                local.next_offset >= old(local).next_offset,
                forall|j: int|
                    0 <= j < i && (#[trigger] call.args@[j]).rtype is Primitive ==> type_eq(
                        call_args@[j],
                        spec_primitive_type(call.args@[j].rtype->Primitive_0),
                    ),
            decreases n - i,
        {
            let arg = &call.args[i];
            proof {
                assert(decreases_to!(*call => call.args));
                assert(decreases_to!(call.args => call.args@));
                assert(decreases_to!(call.args@ => call.args@[i as int]));
            }
            let ghost at_start = self.instructions@;
            proof {
                lemma_concat_prefix(pre, segs.flatten());
            }
            let arg_type = match resolve_type(global, local, &arg.rtype) {
                Ok(t) => t,
                Err(e) => {
                    return Err(e);
                },
            };
            call_args.push(arg_type);

            // Compile the expression, then write its result to the stack.
            match self.compile_expression(global, local, arg) {
                Ok(()) => {},
                Err(e) => {
                    proof {
                        lemma_prefix_trans(pre, at_start, self.instructions@);
                    }
                    return Err(e);
                },
            }
            self.instructions.push(Instruction::Store32(Operand::Const(0), STACK_POINTER, RESULT_REG));
            self.instructions.push(Instruction::AddUnsignedValue(STACK_POINTER, STACK_POINTER, 4));
            proof {
                assert(at_start.is_prefix_of(self.instructions@)) by {
                    assert(self.instructions@.subrange(0, at_start.len() as int) =~= at_start);
                }
                lemma_prefix_trans(pre, at_start, self.instructions@);
            }
            // Each argument advances the stack pointer by one word.
            if stack_offset > 65535u32 - 4 {
                return Err(CodegenError::OffsetOverflow { span: call.span });
            }
            stack_offset = stack_offset + 4;
            proof {
                let seg = self.instructions@.subrange(
                    at_start.len() as int,
                    self.instructions@.len() as int,
                );
                let segs0 = segs;
                segs = segs.push(seg);
                segs0.lemma_flatten_push(seg);
                assert(seg.len() >= 2);
                assert(seg[seg.len() - 2] == Instruction::Store32(
                    Operand::Const(0),
                    STACK_POINTER,
                    RESULT_REG,
                ));
                assert(seg[seg.len() - 1] == Instruction::AddUnsignedValue(
                    STACK_POINTER,
                    STACK_POINTER,
                    4,
                ));
                assert(self.instructions@ =~= at_start + seg);
                assert(self.instructions@ =~= pre + segs.flatten());
                assert(arg_push_segments(segs, i as int + 1)) by {
                    assert forall|ii: int| 0 <= ii < segs.len() implies {
                        let sg = #[trigger] segs[ii];
                        &&& sg.len() >= 2
                        &&& sg[sg.len() - 2] == Instruction::Store32(
                            Operand::Const(0),
                            STACK_POINTER,
                            RESULT_REG,
                        )
                        &&& sg[sg.len() - 1] == Instruction::AddUnsignedValue(
                            STACK_POINTER,
                            STACK_POINTER,
                            4,
                        )
                    } by {
                        if ii < i as int {
                            assert(segs[ii] == segs0[ii]);
                        } else {
                            assert(segs[ii] == seg);
                        }
                    }
                }
                assert(stmts_lets_size_from(call.args@, i as int) == expr_lets_size(
                    call.args@[i as int],
                ) + stmts_lets_size_from(call.args@, i as int + 1));
            }
        }

        // Get the function corresponding to the call; a variable cannot be
        // called.
        let function_ir = match get_ident(global, local, &call.name, call.span) {
            Ok(ir) => ir,
            Err(e) => {
                proof {
                    lemma_concat_prefix(pre, segs.flatten());
                    lemma_prefix_trans(pre, pre + segs.flatten(), self.instructions@);
                }
                return Err(e);
            },
        };
        let func = match function_ir {
            IdentRef::LocalRef(id) => match id {
                IdentId::FnIdentId(k) => &local.functions[k],
                IdentId::VarIdentId(_) => {
                    proof {
                        lemma_prefix_trans(pre, pre + segs.flatten(), self.instructions@);
                    }
                    return Err(CodegenError::ExpectedFunction { name: call.name.clone() });
                },
            },
            IdentRef::GlobalRef(id) => match id {
                IdentId::FnIdentId(k) => &global.functions[k],
                IdentId::VarIdentId(_) => {
                    proof {
                        lemma_prefix_trans(pre, pre + segs.flatten(), self.instructions@);
                    }
                    return Err(CodegenError::ExpectedFunction { name: call.name.clone() });
                },
            },
        };

        // Check that the call args match the function args: exact arity,
        // positionally compatible types.
        if call_args.len() != func.arg_types.len() {
            proof {
                lemma_concat_prefix(pre, segs.flatten());
                lemma_prefix_trans(pre, pre + segs.flatten(), self.instructions@);
            }
            return Err(CodegenError::ArityMismatch {
                expected_args: func.arg_types.len(),
                found_args: call_args.len(),
            });
        }
        let m = call_args.len();
        for j in 0..m
            invariant
                m == call_args@.len(),
                m == func.arg_types@.len(),
                n == call.args@.len(),
                m == n,
                all_literal_args(call.args@) ==> *local == *old(local),
                n == 0 ==> *local == *old(local),
                spec_get_ident(*global, *local, call.name@) == Some(function_ir),
                spec_ident_id(function_ir) is FnIdentId,
                m as int == spec_fn_arity(*global, *local, function_ir),
                func.location == spec_fn_location(*global, *local, function_ir),
                forall|jj: int|
                    0 <= jj < m ==> (#[trigger] func.arg_types@[jj]) == spec_fn_arg_type(
                        *global,
                        *local,
                        function_ir,
                        jj,
                    ),
                forall|jj: int|
                    0 <= jj < m && (#[trigger] call.args@[jj]).rtype is Primitive ==> type_eq(
                        call_args@[jj],
                        spec_primitive_type(call.args@[jj].rtype->Primitive_0),
                    ),
                forall|jj: int|
                    0 <= jj < j && (#[trigger] call.args@[jj]).rtype is Primitive ==> compatible(
                        spec_primitive_type(call.args@[jj].rtype->Primitive_0),
                        spec_fn_arg_type(*global, *local, function_ir, jj),
                    ),
                pre == old(self).instructions@,
                self.instructions@ =~= pre + segs.flatten(),
                arg_push_segments(segs, n as int),
                stack_offset <= u16::MAX,
                self.label_count >= old(self).label_count,
                local.wf(),
                local.end_label == old(local).end_label,
                local.loop_ends@ =~= old(local).loop_ends@,
                local.next_offset as int == old(local).next_offset as int + stmts_lets_size_from(
                    call.args@,
                    0,
                ),
                local.next_offset >= old(local).next_offset,
                stack_offset as int == 4 * (n as int),
            decreases m - j,
        {
            match check_type(&call_args[j], &func.arg_types[j]) {
                Ok(()) => {},
                Err(e) => {
                    proof {
                        lemma_prefix_trans(pre, pre + segs.flatten(), self.instructions@);
                    }
                    return Err(e);
                },
            }
            proof {
                if call.args@[j as int].rtype is Primitive {
                    lemma_compatible_congruence(
                        call_args@[j as int],
                        spec_primitive_type(call.args@[j as int].rtype->Primitive_0),
                        func.arg_types@[j as int],
                    );
                }
            }
        }

        // Make the call, then restore the stack.
        let target = func.location;
        self.instructions.push(Instruction::JumpStore(target));
        self.instructions.push(Instruction::SubUnsignedValue(
            STACK_POINTER,
            STACK_POINTER,
            stack_offset as u16,
        ));
        proof {
            lemma_concat_prefix(pre, segs.flatten());
            lemma_prefix_trans(pre, pre + segs.flatten(), self.instructions@);
            assert(arg_push_segments(segs, call.args@.len() as int));
            assert(self.instructions@.subrange(
                pre.len() as int,
                self.instructions@.len() - 2,
            ) =~= segs.flatten());
        }
        Ok(())
    }

    /// Compile a `let` binding: reserve a frame slot at the scope's offset
    /// counter, advance the counter by the variable's size, register the
    /// name (the shadowing check applies), and compile the optional
    /// initializing assignment.
    pub fn compile_let(&mut self, global: &Scope, local: &mut Scope, let_statement: &LetStatement)
        -> (r: Result<(), CodegenError>)
        requires
            global.wf(),
            old(local).wf(),
        ensures
            old(self).instructions@.is_prefix_of(final(self).instructions@),
            final(self).label_count >= old(self).label_count,
            r is Err ==> !(r->Err_0 is InternalError),
            final(local).next_offset >= old(local).next_offset,
            final(local).end_label == old(local).end_label,
            r is Ok ==> final(local).wf() && final(local).loop_ends@ =~= old(local).loop_ends@
                && final(local).next_offset as int == old(local).next_offset as int + let_size(
                let_statement.var_type,
            ) + (match let_statement.assignment {
                Option::Some(a) => expr_lets_size(a.expression),
                Option::None => 0,
            }),
            // Rebinding a name already bound in this scope is a shadowing
            // error: every binding in the table names an existing entity,
            // never the variable about to be created.
            lookup_id(old(local).ident_table@, let_statement.name@) is Some ==> r == Err::<
                (),
                CodegenError,
            >(
                CodegenError::IdentifierShadowed {
                    name: let_statement.name,
                    span: let_statement.span,
                },
            ) && final(self).instructions@ =~= old(self).instructions@,
            // An unbound name of primitive type within the frame budget
            // always binds; without an initializer nothing is emitted.
            (lookup_id(old(local).ident_table@, let_statement.name@) is None
                && let_statement.var_type is Primitive && old(local).next_offset as int
                + spec_primitive_type(let_statement.var_type->Primitive_0).spec_size()
                <= i16::MAX as int && (let_statement.assignment is None || (
            match let_statement.assignment {
                Option::Some(a) => a.target@ == let_statement.name@ && (*a.expression.expr)
                    is LitNumExpr,
                Option::None => true,
            }))) ==> r is Ok && final(local).vars@.len() == old(local).vars@.len() + 1 && final(local).vars@.last().name == let_statement.name && final(local).vars@.last().location
                == Location::Offset(old(local).next_offset) && lookup_id(
                final(local).ident_table@,
                let_statement.name@,
            ) == Some(IdentId::VarIdentId(old(local).vars@.len() as usize)),
            (lookup_id(old(local).ident_table@, let_statement.name@) is None
                && let_statement.var_type is Primitive && old(local).next_offset as int
                + spec_primitive_type(let_statement.var_type->Primitive_0).spec_size()
                <= i16::MAX as int && let_statement.assignment is None) ==> r is Ok && final(self).instructions@ =~= old(self).instructions@,
            // With a literal initializer naming the new variable, the
            // binding also compiles: the literal is loaded and stored at
            // the variable's fresh frame offset.
            (match let_statement.assignment {
                Option::Some(a) => match *a.expression.expr {
                    Expr::LitNumExpr(v) => (lookup_id(
                        old(local).ident_table@,
                        let_statement.name@,
                    ) is None && let_statement.var_type is Primitive && old(local).next_offset as int + spec_primitive_type(
                        let_statement.var_type->Primitive_0,
                    ).spec_size() <= i16::MAX as int && a.target@ == let_statement.name@)
                        ==> r is Ok && final(self).instructions@ =~= old(self).instructions@.push(
                        Instruction::AddSignedValue(RESULT_REG, ZERO_REG, v),
                    ).push(
                        Instruction::Store32(
                            Operand::Const(old(local).next_offset),
                            FRAME_POINTER,
                            RESULT_REG,
                        ),
                    ),
                    _ => true,
                },
                Option::None => true,
            }),
        decreases *let_statement,
    {
        // Register this variable.
        let id = IdentId::VarIdentId(local.vars.len());
        let ghost loc0 = *local;
        match local.add_ident(let_statement.name.clone(), id, let_statement.span) {
            Ok(()) => {},
            Err(e) => {
                return Err(e);
            },
        }
        proof {
            // The name cannot have been bound already: every binding in the
            // table points below the current variable count.
            if lookup_id(loc0.ident_table@, let_statement.name@) is Some {
                lemma_lookup_id_in_table(loc0.ident_table@, let_statement.name@);
                let wi = choose|ii: int|
                    0 <= ii < loc0.ident_table@.len() && (#[trigger] loc0.ident_table@[ii]).1
                        == lookup_id(loc0.ident_table@, let_statement.name@)->Some_0;
                assert(false);
            }
        }

        let var = match Variable::new(
            let_statement.name.clone(),
            let_statement.var_type.dup(),
            None,
            Location::Offset(local.next_offset),
            let_statement.span,
        ) {
            Ok(v) => v,
            Err(e) => {
                return Err(e);
            },
        };
        let size = var.rtype.size();
        if local.next_offset > i16::MAX - (size as i16) {
            return Err(CodegenError::OffsetOverflow { span: let_statement.span });
        }
        local.next_offset = local.next_offset + (size as i16);
        let ghost gv = var;
        local.vars.push(var);
        proof {
            lemma_wf_after_var_bind(loc0, *local, gv.name, gv);
        }

        // Compile optional assignment.
        match &let_statement.assignment {
            Some(assignment) => {
                proof {
                    assert(decreases_to!(*let_statement => let_statement.assignment));
                }
                self.compile_assign(global, local, assignment)
            },
            None => Ok(()),
        }
    }

    /// Compile an assignment: the target must name a variable; the
    /// right-hand expression's value is stored into the target's location.
    pub fn compile_assign(&mut self, global: &Scope, local: &mut Scope, assignment: &Assignment)
        -> (r: Result<(), CodegenError>)
        requires
            global.wf(),
            old(local).wf(),
        ensures
            old(self).instructions@.is_prefix_of(final(self).instructions@),
            final(self).label_count >= old(self).label_count,
            r is Err ==> !(r->Err_0 is InternalError),
            final(local).next_offset >= old(local).next_offset,
            final(local).end_label == old(local).end_label,
            r is Ok ==> final(local).wf() && final(local).loop_ends@ =~= old(local).loop_ends@
                && final(local).next_offset as int == old(local).next_offset as int
                + expr_lets_size(assignment.expression),
            match spec_get_ident(*global, *old(local), assignment.target@) {
                Option::None => r == Err::<(), CodegenError>(
                    CodegenError::IdentifierNotFound {
                        name: assignment.target,
                        span: assignment.span,
                    },
                ),
                Option::Some(ir) => match spec_ident_id(ir) {
                    IdentId::FnIdentId(_) => r == Err::<(), CodegenError>(
                        CodegenError::ExpectedVariable { name: assignment.target },
                    ),
                    IdentId::VarIdentId(_) => r is Ok ==> final(self).instructions@.len() > old(self).instructions@.len() && final(self).instructions@.last() == store_instr(
                        spec_var_location(*global, *old(local), ir),
                    ),
                },
            },
            // Assigning a literal to a variable always succeeds: the
            // literal is loaded into the result register and stored to the
            // variable's location.
            (match spec_get_ident(*global, *old(local), assignment.target@) {
                Option::Some(ir) => match *assignment.expression.expr {
                    Expr::LitNumExpr(v) => spec_ident_id(ir) is VarIdentId ==> r is Ok && final(self).instructions@ =~= old(self).instructions@.push(
                        Instruction::AddSignedValue(RESULT_REG, ZERO_REG, v),
                    ).push(store_instr(spec_var_location(*global, *old(local), ir)))
                        && *final(local) == *old(local),
                    _ => true,
                },
                Option::None => true,
            }),
        decreases *assignment,
    {
        // Check that the name resolves to a variable.
        let ir = match get_ident(global, local, &assignment.target, assignment.span) {
            Ok(ir) => ir,
            Err(e) => {
                return Err(e);
            },
        };
        let target_location = match ir {
            IdentRef::LocalRef(id) => match id {
                IdentId::FnIdentId(_) => {
                    return Err(CodegenError::ExpectedVariable { name: assignment.target.clone() });
                },
                IdentId::VarIdentId(k) => local.vars[k].location,
            },
            IdentRef::GlobalRef(id) => match id {
                IdentId::FnIdentId(_) => {
                    return Err(CodegenError::ExpectedVariable { name: assignment.target.clone() });
                },
                IdentId::VarIdentId(k) => global.vars[k].location,
            },
        };

        // Compile the expression and store the result in the location found.
        let ghost mid = self.instructions@;
        match self.compile_expression(global, local, &assignment.expression) {
            Ok(()) => {},
            Err(e) => {
                return Err(e);
            },
        }
        self.push_store(target_location);
        proof {
            lemma_prefix_trans(mid, self.instructions@.drop_last(), self.instructions@);
        }
        Ok(())
    }
    /// Compile a global function: entry label, prologue, reverse-order
    /// parameter binding at negative frame offsets, body, frame-size patch,
    /// and epilogue.
    ///
    /// The prologue's fourth instruction reserves the local stack space; it
    /// is emitted as a placeholder and patched, once, after the body has
    /// been compiled: the frame size is the scope's final offset counter,
    /// 8 bytes (saved frame pointer and return address) plus the bytes of
    /// all `let` bindings compiled in the body.
    pub fn compile_global_fn(&mut self, global: &Scope, fn_id: usize) -> (r: Result<
        (),
        CodegenError,
    >)
        requires
            fn_id < global.functions@.len(),
            global.wf(),
        ensures
            old(self).instructions@.is_prefix_of(final(self).instructions@),
            final(self).label_count >= old(self).label_count,
            r is Err ==> !(r->Err_0 is InternalError),
            r is Ok ==> ({
                let f = global.functions@[fn_id as int];
                let pre = old(self).instructions@;
                let post = final(self).instructions@;
                &&& post.len() >= pre.len() + 10
                &&& post[pre.len() as int] == Instruction::Label(f.location)
                &&& post[pre.len() as int + 1] == Instruction::Store32(
                    Operand::Const(0),
                    STACK_POINTER,
                    FRAME_POINTER,
                )
                &&& post[pre.len() as int + 2] == Instruction::AddSigned(
                    FRAME_POINTER,
                    STACK_POINTER,
                    ZERO_REG,
                )
                &&& post[pre.len() as int + 3] == Instruction::Store32(
                    Operand::Const(4),
                    FRAME_POINTER,
                    RETURN_REG,
                )
                &&& 8 + block_lets_size(f.body) <= i16::MAX as int
                &&& post[pre.len() as int + 4] == Instruction::AddSignedValue(
                    STACK_POINTER,
                    STACK_POINTER,
                    (8 + block_lets_size(f.body)) as i16,
                )
                &&& post[post.len() - 5] == Instruction::Label(
                    LabelId::Gen(old(self).label_count),
                )
                &&& post[post.len() - 4] == Instruction::Load32(
                    RETURN_REG,
                    Operand::Const(4),
                    FRAME_POINTER,
                )
                &&& post[post.len() - 3] == Instruction::AddSigned(
                    STACK_POINTER,
                    FRAME_POINTER,
                    ZERO_REG,
                )
                &&& post[post.len() - 2] == Instruction::Load32(
                    FRAME_POINTER,
                    Operand::Const(0),
                    STACK_POINTER,
                )
                &&& post[post.len() - 1] == Instruction::JumpR(RETURN_REG)
            }),
            // A function with no parameters and an empty body always
            // compiles, to exactly the label, prologue, reservation, end
            // label, and epilogue.
            (global.functions@[fn_id as int].params@.len() == 0 && global.functions@[
                fn_id as int
            ].body.statements@.len() == 0 && old(self).label_count < u64::MAX) ==> r is Ok
                && final(self).instructions@.len() == old(self).instructions@.len() + 10,
            // A parameterless function whose body is one argument-free call
            // of a name unbound in the global scope fails, naming it.
            (global.functions@[fn_id as int].params@.len() == 0 && global.functions@[
                fn_id as int
            ].body.statements@.len() == 1 && old(self).label_count < u64::MAX) ==> (
            match *global.functions@[fn_id as int].body.statements@[0].expr {
                Expr::CallExpr(c) => (c.args@.len() == 0 && lookup_id(
                    global.ident_table@,
                    c.name@,
                ) is None) ==> r == Err::<(), CodegenError>(
                    CodegenError::IdentifierNotFound { name: c.name, span: c.span },
                ),
                _ => true,
            }),
            // A parameterless function whose body is one decided
            // branch-type mismatch fails, naming both types.
            (global.functions@[fn_id as int].params@.len() == 0 && global.functions@[
                fn_id as int
            ].body.statements@.len() == 1 && old(self).label_count < u64::MAX - 2) ==> (
            match *global.functions@[fn_id as int].body.statements@[0].expr {
                Expr::IfExpr(st) => if_mismatch_shape_prim(st) ==> r == Err::<(), CodegenError>(
                    if_mismatch_error(st),
                ),
                _ => true,
            }),
            // A parameterless function whose body is a decidable `let` and
            // a bare `return` compiles to the exact calling-convention
            // sequence around the load, store and jump.
            (global.functions@[fn_id as int].params@.len() == 0 && let_return_body(
                global.functions@[fn_id as int].body,
            ) && lit_let_shape(
                (*global.functions@[fn_id as int].body.statements@[0].expr)->LetExpr_0,
            ) && old(self).label_count < u64::MAX) ==> ({
                let f = global.functions@[fn_id as int];
                let ls = (*f.body.statements@[0].expr)->LetExpr_0;
                let fs = 8 + spec_primitive_type(ls.var_type->Primitive_0).spec_size();
                r is Ok && final(self).instructions@ =~= old(self).instructions@ + seq![
                    Instruction::Label(f.location),
                    Instruction::Store32(Operand::Const(0), STACK_POINTER, FRAME_POINTER),
                    Instruction::AddSigned(FRAME_POINTER, STACK_POINTER, ZERO_REG),
                    Instruction::Store32(Operand::Const(4), FRAME_POINTER, RETURN_REG),
                    Instruction::AddSignedValue(STACK_POINTER, STACK_POINTER, fs as i16),
                ] + lit_let_code(ls, 8) + seq![
                    Instruction::Jump(LabelId::Gen(old(self).label_count)),
                    Instruction::Label(LabelId::Gen(old(self).label_count)),
                    Instruction::Load32(RETURN_REG, Operand::Const(4), FRAME_POINTER),
                    Instruction::AddSigned(STACK_POINTER, FRAME_POINTER, ZERO_REG),
                    Instruction::Load32(FRAME_POINTER, Operand::Const(0), STACK_POINTER),
                    Instruction::JumpR(RETURN_REG),
                ]
            }),
    {
        let ghost pre = self.instructions@;
        let f = &global.functions[fn_id];

        // Add the function's label.
        self.instructions.push(Instruction::Label(f.location));

        // Store the caller's frame pointer and set the current frame
        // pointer; store the return address at word 1 of the frame.
        self.instructions.push(Instruction::Store32(Operand::Const(0), STACK_POINTER, FRAME_POINTER));
        self.instructions.push(Instruction::AddSigned(FRAME_POINTER, STACK_POINTER, ZERO_REG));
        self.instructions.push(Instruction::Store32(Operand::Const(4), FRAME_POINTER, RETURN_REG));
        let ghost p4 = self.instructions@;

        // Create a local scope for this function, ended by a fresh label.
        let end_label = match self.next_unique_label() {
            Ok(l) => l,
            Err(e) => {
                return Err(e);
            },
        };
        let mut local = Scope::new(end_label);

        // Register the parameters as local variables.  They sit at negative
        // offsets before the frame pointer, the last parameter closest to
        // it, consistent with a caller that pushes arguments left to right.
        let mut next_param_addr: i16 = 0;
        let np = f.params.len();
        let span = f.span;
        for j in 0..np
            invariant
                fn_id < global.functions@.len(),
                np == global.functions@[fn_id as int].params@.len(),
                global.wf(),
                local.wf(),
                local.end_label == end_label,
                local.loop_ends@ =~= Seq::<LabelId>::empty(),
                local.next_offset == 8,
                np == 0 ==> local.ident_table@ =~= Seq::<(String, IdentId)>::empty()
                    && local.vars@ =~= Seq::<Variable>::empty(),
                self.instructions@ =~= p4,
                pre == old(self).instructions@,
                p4 =~= pre + seq![
                    Instruction::Label(global.functions@[fn_id as int].location),
                    Instruction::Store32(Operand::Const(0), STACK_POINTER, FRAME_POINTER),
                    Instruction::AddSigned(FRAME_POINTER, STACK_POINTER, ZERO_REG),
                    Instruction::Store32(Operand::Const(4), FRAME_POINTER, RETURN_REG),
                ],
                self.label_count >= old(self).label_count,
            decreases np - j,
        {
            let param = &global.functions[fn_id].params[np - 1 - j];
            let var = match Variable::new(
                param.0.clone(),
                param.1.dup(),
                None,
                Location::Offset(next_param_addr),
                span,
            ) {
                Ok(v) => v,
                Err(e) => {
                    return Err(e);
                },
            };
            let psize = var.rtype.size();
            if next_param_addr < i16::MIN + (psize as i16) {
                return Err(CodegenError::OffsetOverflow { span });
            }
            next_param_addr = next_param_addr - (psize as i16);

            let id = IdentId::VarIdentId(local.vars.len());
            let ghost loc0 = local;
            match local.add_ident(param.0.clone(), id, span) {
                Ok(()) => {},
                Err(e) => {
                    return Err(e);
                },
            }
            proof {
                if lookup_id(loc0.ident_table@, param.0@) is Some {
                    lemma_lookup_id_in_table(loc0.ident_table@, param.0@);
                    let wi = choose|ii: int|
                        0 <= ii < loc0.ident_table@.len() && (#[trigger] loc0.ident_table@[
                            ii
                        ]).1 == lookup_id(loc0.ident_table@, param.0@)->Some_0;
                    assert(false);
                }
            }
            let ghost gv = var;
            local.vars.push(var);
            proof {
                lemma_wf_after_var_bind(loc0, local, gv.name, gv);
            }
        }

        // Reserve stack space for the function.  The frame size is unknown
        // until the body has been compiled, so a placeholder is emitted and
        // patched afterwards.
        let reserve_stack_index = self.instructions.len();
        self.instructions.push(Instruction::Nop);
        let ghost p5 = self.instructions@;

        // Compile the body of the function.
        proof {
            let fv = global.functions@[fn_id as int];
            if fv.params@.len() == 0 {
                assert(local.ident_table@.len() == 0);
                if let_return_body(fv.body) && lit_let_shape(
                    (*fv.body.statements@[0].expr)->LetExpr_0,
                ) {
                    let ls = (*fv.body.statements@[0].expr)->LetExpr_0;
                    assert(spec_primitive_type(ls.var_type->Primitive_0).spec_size() <= 4);
                    assert(lookup_id(local.ident_table@, ls.name@) is None);
                    assert(lit_let_ok(local.ident_table@, local.next_offset, ls));
                }
                if fv.body.statements@.len() == 1 {
                    if let Expr::CallExpr(c) = &*fv.body.statements@[0].expr {
                        assert(lookup_id(local.ident_table@, c.name@) is None);
                    }
                }
            }
        }
        match self.compile_block(global, &mut local, &f.body) {
            Ok(()) => {},
            Err(e) => {
                proof {
                    lemma_concat_prefix(pre, p5.subrange(pre.len() as int, p5.len() as int));
                    assert(pre + p5.subrange(pre.len() as int, p5.len() as int) =~= p5);
                    lemma_prefix_trans(pre, p5, self.instructions@);
                }
                return Err(e);
            },
        }
        let ghost xb = self.instructions@;

        // Now set the amount of stack space to allocate.
        let frame_size = local.next_offset;
        self.instructions.set(
            reserve_stack_index,
            Instruction::AddSignedValue(STACK_POINTER, STACK_POINTER, frame_size),
        );

        self.instructions.push(Instruction::Label(local.end_label));

        // Remove this stack frame and return to the previous one.
        self.instructions.push(Instruction::Load32(RETURN_REG, Operand::Const(4), FRAME_POINTER));
        self.instructions.push(Instruction::AddSigned(STACK_POINTER, FRAME_POINTER, ZERO_REG));
        self.instructions.push(Instruction::Load32(FRAME_POINTER, Operand::Const(0), STACK_POINTER));
        self.instructions.push(Instruction::JumpR(RETURN_REG));
        proof {
            let fv = global.functions@[fn_id as int];
            let patch = Instruction::AddSignedValue(STACK_POINTER, STACK_POINTER, frame_size);
            assert(xb.subrange(0, p5.len() as int) == p5);
            assert(p5 == p4.push(Instruction::Nop));
            assert(reserve_stack_index as int == pre.len() + 4);
            let tail = seq![
                Instruction::Label(local.end_label),
                Instruction::Load32(RETURN_REG, Operand::Const(4), FRAME_POINTER),
                Instruction::AddSigned(STACK_POINTER, FRAME_POINTER, ZERO_REG),
                Instruction::Load32(FRAME_POINTER, Operand::Const(0), STACK_POINTER),
                Instruction::JumpR(RETURN_REG),
            ];
            let full = xb.update(reserve_stack_index as int, patch) + tail;
            assert(self.instructions@ =~= full);
            assert forall|i: int| 0 <= i < pre.len() + 4 implies full[i] == p4[i] by {
                assert(full[i] == xb.update(reserve_stack_index as int, patch)[i]);
                assert(xb.update(reserve_stack_index as int, patch)[i] == xb[i]);
                assert(xb[i] == xb.subrange(0, p5.len() as int)[i]);
                assert(xb[i] == p5[i]);
                assert(p5[i] == p4[i]);
            }
            assert(self.instructions@.subrange(0, pre.len() as int) =~= pre);
            assert(self.instructions@[pre.len() as int] == Instruction::Label(fv.location));
            assert(self.instructions@[pre.len() as int + 1] == Instruction::Store32(
                Operand::Const(0),
                STACK_POINTER,
                FRAME_POINTER,
            ));
            assert(self.instructions@[pre.len() as int + 2] == Instruction::AddSigned(
                FRAME_POINTER,
                STACK_POINTER,
                ZERO_REG,
            ));
            assert(self.instructions@[pre.len() as int + 3] == Instruction::Store32(
                Operand::Const(4),
                FRAME_POINTER,
                RETURN_REG,
            ));
            assert(self.instructions@[pre.len() as int + 4] == patch);
            assert(frame_size as int == 8 + block_lets_size(fv.body));
            if fv.params@.len() == 0 && let_return_body(fv.body) && lit_let_shape(
                (*fv.body.statements@[0].expr)->LetExpr_0,
            ) {
                let ls = (*fv.body.statements@[0].expr)->LetExpr_0;
                let stmts = fv.body.statements@;
                assert(stmts_lets_size_from(stmts, 2) == 0);
                assert(expr_lets_size((*stmts[1].expr)->Return_0) == 0);
                assert(expr_lets_size(stmts[1]) == 0);
                assert(expr_lets_size(ls.assignment->Some_0.expression) == 0);
                assert(expr_lets_size(stmts[0]) == let_size(ls.var_type));
                assert(stmts_lets_size_from(stmts, 1) == 0);
                assert(stmts_lets_size_from(stmts, 0) == let_size(ls.var_type));
                assert(frame_size as int == 8 + spec_primitive_type(
                    ls.var_type->Primitive_0,
                ).spec_size());
                assert(xb =~= p5 + lit_let_code(ls, 8).push(
                    Instruction::Jump(LabelId::Gen(old(self).label_count)),
                ));
                assert(self.instructions@ =~= pre + seq![
                    Instruction::Label(fv.location),
                    Instruction::Store32(Operand::Const(0), STACK_POINTER, FRAME_POINTER),
                    Instruction::AddSigned(FRAME_POINTER, STACK_POINTER, ZERO_REG),
                    Instruction::Store32(Operand::Const(4), FRAME_POINTER, RETURN_REG),
                    Instruction::AddSignedValue(STACK_POINTER, STACK_POINTER, frame_size),
                ] + lit_let_code(ls, 8) + seq![
                    Instruction::Jump(LabelId::Gen(old(self).label_count)),
                    Instruction::Label(LabelId::Gen(old(self).label_count)),
                    Instruction::Load32(RETURN_REG, Operand::Const(4), FRAME_POINTER),
                    Instruction::AddSigned(STACK_POINTER, FRAME_POINTER, ZERO_REG),
                    Instruction::Load32(FRAME_POINTER, Operand::Const(0), STACK_POINTER),
                    Instruction::JumpR(RETURN_REG),
                ]);
            }
        }
        Ok(())
    }

}


/// Each segment ends with the two argument-passing instructions: a store of
/// `RESULT_REG` at the stack pointer, then a one-word advance of the stack
/// pointer.
pub open spec fn arg_push_segments(segs: Seq<Seq<Instruction>>, k: int) -> bool {
    &&& segs.len() == k
    &&& forall|i: int|
        0 <= i < segs.len() ==> {
            let s = #[trigger] segs[i];
            &&& s.len() >= 2
            &&& s[s.len() - 2] == Instruction::Store32(Operand::Const(0), STACK_POINTER, RESULT_REG)
            &&& s[s.len() - 1] == Instruction::AddUnsignedValue(STACK_POINTER, STACK_POINTER, 4)
        }
}

/// The number of label-placement instructions in a sequence.
pub open spec fn label_instr_count(s: Seq<Instruction>) -> int
    decreases s.len(),
{
    if s.len() == 0 {
        0
    } else {
        (if s[0] is Label {
            1int
        } else {
            0int
        }) + label_instr_count(s.drop_first())
    }
}

/// Label counts are nonnegative.
proof fn lemma_label_count_nonneg(s: Seq<Instruction>)
    ensures
        label_instr_count(s) >= 0,
    decreases s.len(),
{
    if s.len() > 0 {
        lemma_label_count_nonneg(s.drop_first());
    }
}

/// Label counts add over concatenation.
proof fn lemma_label_count_concat(a: Seq<Instruction>, b: Seq<Instruction>)
    ensures
        label_instr_count(a + b) == label_instr_count(a) + label_instr_count(b),
    decreases a.len(),
{
    if a.len() == 0 {
        assert(a + b =~= b);
    } else {
        assert((a + b).drop_first() =~= a.drop_first() + b);
        assert((a + b)[0] == a[0]);
        lemma_label_count_concat(a.drop_first(), b);
    }
}

/// A compile step that placed a label at the head of its emitted code grew
/// the label count by at least one.
proof fn lemma_label_count_grows(pre: Seq<Instruction>, post: Seq<Instruction>)
    requires
        pre.is_prefix_of(post),
        post.len() > pre.len(),
        post[pre.len() as int] is Label,
    ensures
        label_instr_count(post) >= label_instr_count(pre) + 1,
{
    let suffix = post.subrange(pre.len() as int, post.len() as int);
    assert(post =~= pre + suffix);
    lemma_label_count_concat(pre, suffix);
    assert(suffix[0] is Label);
    lemma_label_count_nonneg(suffix.drop_first());
}

/// A program consisting of one parameterless function declaration with a
/// primitive return type annotation.
pub open spec fn single_fn_program(p: Program) -> bool {
    &&& p.items@.len() == 1
    &&& p.items@[0] is FunctionItem
    &&& p.items@[0]->FunctionItem_0.params@.len() == 0
    &&& p.items@[0]->FunctionItem_0.rtype is Primitive
}

/// The global scope and label counter right after registering such a
/// program's single declaration.
pub open spec fn single_fn_registered(p: Program, global: Scope, label_count: u64) -> bool {
    &&& global.functions@.len() == 1
    &&& global.functions@[0].params@.len() == 0
    &&& global.functions@[0].body == p.items@[0]->FunctionItem_0.body
    &&& global.functions@[0].location == LabelId::Gen(0)
    &&& global.ident_table@.len() == 1
    &&& global.ident_table@[0].0@ == p.items@[0]->FunctionItem_0.name@
    &&& global.vars@.len() == 0
    &&& label_count == 1
}

/// Generate code for a whole program.
///
/// All top-level declarations are registered into the global scope first, so
/// that forward references between globals and functions resolve; then every
/// global variable's storage is compiled, then every function body, in
/// declaration order.  Generation is all-or-nothing: on the first error the
/// structured error value is returned and no instruction sequence at all.
pub fn codegen(program: Program) -> (r: Result<Vec<Instruction>, CodegenError>)
    ensures
        // A successfully compiled program with at least one item yields a
        // non-empty instruction sequence.
        r is Ok && program.items@.len() > 0 ==> r->Ok_0@.len() > 0,
        // Struct declarations are rejected: a program that compiles holds
        // none.
        r is Ok ==> forall|i: int|
            0 <= i < program.items@.len() ==> !((#[trigger] program.items@[i]) is StructItem),
        // The output carries at least one placed label per declared item:
        // every global's data and every function's entry is labeled.
        r is Ok ==> label_instr_count(r->Ok_0@) >= program.items@.len(),
        // Internal-consistency errors are unreachable from a program tree:
        // every failure is one of the input-level errors.
        r is Err ==> !(r->Err_0 is InternalError),
        // A program with no items compiles to the empty sequence.
        program.items@.len() == 0 ==> r is Ok && r->Ok_0@.len() == 0,
        // End-to-end: one parameterless function whose body binds a
        // literal and returns compiles to the exact calling-convention
        // sequence; the entry label is the first issued, the end label the
        // second.
        (single_fn_program(program) && let_return_body(
            program.items@[0]->FunctionItem_0.body,
        ) && lit_let_shape(
            (*program.items@[0]->FunctionItem_0.body.statements@[0].expr)->LetExpr_0,
        )) ==> ({
            let ls = (*program.items@[0]->FunctionItem_0.body.statements@[0].expr)->LetExpr_0;
            let fs = 8 + spec_primitive_type(ls.var_type->Primitive_0).spec_size();
            r is Ok && r->Ok_0@ =~= seq![
                Instruction::Label(LabelId::Gen(0)),
                Instruction::Store32(Operand::Const(0), STACK_POINTER, FRAME_POINTER),
                Instruction::AddSigned(FRAME_POINTER, STACK_POINTER, ZERO_REG),
                Instruction::Store32(Operand::Const(4), FRAME_POINTER, RETURN_REG),
                Instruction::AddSignedValue(STACK_POINTER, STACK_POINTER, fs as i16),
            ] + lit_let_code(ls, 8) + seq![
                Instruction::Jump(LabelId::Gen(1)),
                Instruction::Label(LabelId::Gen(1)),
                Instruction::Load32(RETURN_REG, Operand::Const(4), FRAME_POINTER),
                Instruction::AddSigned(STACK_POINTER, FRAME_POINTER, ZERO_REG),
                Instruction::Load32(FRAME_POINTER, Operand::Const(0), STACK_POINTER),
                Instruction::JumpR(RETURN_REG),
            ]
        }),
        // End-to-end: calling a name no declaration binds fails with an
        // identifier-not-found error naming it, and no output is returned.
        (single_fn_program(program) && program.items@[0]->FunctionItem_0.body.statements@.len()
            == 1) ==> (match *program.items@[0]->FunctionItem_0.body.statements@[0].expr {
            Expr::CallExpr(c) => (c.args@.len() == 0 && c.name@
                != program.items@[0]->FunctionItem_0.name@) ==> r == Err::<
                Vec<Instruction>,
                CodegenError,
            >(CodegenError::IdentifierNotFound { name: c.name, span: c.span }),
            _ => true,
        }),
        // End-to-end: a decided branch-type mismatch fails with a type
        // error naming both branch types, and no output is returned.
        (single_fn_program(program) && program.items@[0]->FunctionItem_0.body.statements@.len()
            == 1) ==> (match *program.items@[0]->FunctionItem_0.body.statements@[0].expr {
            Expr::IfExpr(st) => if_mismatch_shape_prim(st) ==> r == Err::<
                Vec<Instruction>,
                CodegenError,
            >(if_mismatch_error(st)),
            _ => true,
        }),
        // A leading struct declaration is rejected as the unsupported
        // feature it is.
        program.items@.len() > 0 && program.items@[0] is StructItem ==> r == Err::<
            Vec<Instruction>,
            CodegenError,
        >(
            CodegenError::UnsupportedFeature {
                feature: Feature::StructDeclaration,
                span: program.items@[0]->StructItem_0.span,
            },
        ),
{
    let mut global = Scope::new(LabelId::Exit);
    let mut data = CodeData { instructions: Vec::new(), label_count: 0 };
    let mut items = program.items;
    let ghost orig = items@;
    let ghost total = items@.len();

    // Parse globals: register every top-level declaration.
    while items.len() > 0
        invariant
            global.wf(),
            global.vars@.len() + global.functions@.len() == total - items@.len(),
            data.instructions@.len() == 0,
            data.label_count == total - items@.len(),
            forall|vi: int|
                0 <= vi < global.vars@.len() ==> (#[trigger] global.vars@[vi]).location is Label,
            total == orig.len(),
            orig =~= program.items@,
            total == program.items@.len(),
            items@ =~= orig.skip(total - items@.len()),
            forall|j: int|
                0 <= j < total - items@.len() ==> !((#[trigger] orig[j]) is StructItem),
            single_fn_program(program) && items@.len() == 0 ==> single_fn_registered(
                program,
                global,
                data.label_count,
            ),
        decreases items@.len(),
    {
        let ghost processed = total - items@.len();
        proof {
            assert(items@[0] == orig[processed]);
        }
        let item = items.remove(0);
        proof {
            assert(items@ =~= orig.skip(processed + 1));
        }
        let location = match data.next_unique_label() {
            Ok(l) => l,
            Err(e) => {
                return Err(e);
            },
        };
        match item {
            Item::FunctionItem(fn_item) => {
                let id = IdentId::FnIdentId(global.functions.len());
                let ghost g0 = global;
                let name = fn_item.name.clone();
                let span = fn_item.span;
                match global.add_ident(name, id, span) {
                    Ok(()) => {},
                    Err(e) => {
                        return Err(e);
                    },
                }
                let f = match Function::new(fn_item, location) {
                    Ok(f) => f,
                    Err(e) => {
                        return Err(e);
                    },
                };
                proof {
                    if lookup_id(g0.ident_table@, f.name@) is Some {
                        lemma_lookup_id_in_table(g0.ident_table@, f.name@);
                        let wi = choose|ii: int|
                            0 <= ii < g0.ident_table@.len() && (#[trigger] g0.ident_table@[
                                ii
                            ]).1 == lookup_id(g0.ident_table@, f.name@)->Some_0;
                        assert(false);
                    }
                }
                let ghost gf = f;
                global.functions.push(f);
                proof {
                    lemma_wf_after_fn_bind(g0, global, gf.name, gf);
                }
            },
            Item::StructItem(struct_item) => {
                // Struct declarations are recognized but not implemented.
                return Err(CodegenError::UnsupportedFeature {
                    feature: Feature::StructDeclaration,
                    span: struct_item.span,
                });
            },
            Item::LetItem(let_item) => {
                let id = IdentId::VarIdentId(global.vars.len());
                let ghost g0 = global;
                match global.add_ident(let_item.name.clone(), id, let_item.span) {
                    Ok(()) => {},
                    Err(e) => {
                        return Err(e);
                    },
                }
                let v = match Variable::new(
                    let_item.name,
                    let_item.var_type,
                    let_item.assignment,
                    Location::Label(location),
                    let_item.span,
                ) {
                    Ok(v) => v,
                    Err(e) => {
                        return Err(e);
                    },
                };
                proof {
                    if lookup_id(g0.ident_table@, v.name@) is Some {
                        lemma_lookup_id_in_table(g0.ident_table@, v.name@);
                        let wi = choose|ii: int|
                            0 <= ii < g0.ident_table@.len() && (#[trigger] g0.ident_table@[
                                ii
                            ]).1 == lookup_id(g0.ident_table@, v.name@)->Some_0;
                        assert(false);
                    }
                }
                let ghost gv = v;
                global.vars.push(v);
                proof {
                    lemma_wf_after_var_bind(g0, global, gv.name, gv);
                }
            },
        }
    }

    // Compile global variables.
    let nv = global.vars.len();
    proof {
        assert(label_instr_count(data.instructions@) == 0);
    }
    for i in 0..nv
        invariant
            nv == global.vars@.len(),
            global.wf(),
            nv + global.functions@.len() == total,
            total == program.items@.len(),
            forall|j: int|
                0 <= j < program.items@.len() ==> !((#[trigger] program.items@[j]) is StructItem),
            total == 0 ==> data.instructions@.len() == 0,
            data.instructions@.len() >= i,
            label_instr_count(data.instructions@) >= i,
            forall|vi: int|
                0 <= vi < global.vars@.len() ==> (#[trigger] global.vars@[vi]).location is Label,
            single_fn_program(program) ==> single_fn_registered(program, global, data.label_count)
                && data.instructions@.len() == 0,
        decreases nv - i,
    {
        let ghost mid = data.instructions@;
        match data.compile_global_var(&global, i) {
            Ok(()) => {},
            Err(e) => {
                return Err(e);
            },
        }
        proof {
            lemma_label_count_grows(mid, data.instructions@);
        }
    }

    // Compile global functions.
    let nf = global.functions.len();
    for i in 0..nf
        invariant
            nf == global.functions@.len(),
            global.wf(),
            nv as int + nf as int == total,
            total == program.items@.len(),
            forall|j: int|
                0 <= j < program.items@.len() ==> !((#[trigger] program.items@[j]) is StructItem),
            total == 0 ==> data.instructions@.len() == 0,
            data.instructions@.len() >= nv + i,
            label_instr_count(data.instructions@) >= nv + i,
            single_fn_program(program) ==> single_fn_registered(program, global, 1) && nf == 1
                && (i == 0 ==> data.instructions@.len() == 0 && data.label_count == 1),
            (single_fn_program(program) && let_return_body(
                program.items@[0]->FunctionItem_0.body,
            ) && lit_let_shape(
                (*program.items@[0]->FunctionItem_0.body.statements@[0].expr)->LetExpr_0,
            ) && i == 1) ==> ({
                let ls = (*program.items@[0]->FunctionItem_0.body.statements@[0].expr)->LetExpr_0;
                let fs = 8 + spec_primitive_type(ls.var_type->Primitive_0).spec_size();
                data.instructions@ =~= seq![
                    Instruction::Label(LabelId::Gen(0)),
                    Instruction::Store32(Operand::Const(0), STACK_POINTER, FRAME_POINTER),
                    Instruction::AddSigned(FRAME_POINTER, STACK_POINTER, ZERO_REG),
                    Instruction::Store32(Operand::Const(4), FRAME_POINTER, RETURN_REG),
                    Instruction::AddSignedValue(STACK_POINTER, STACK_POINTER, fs as i16),
                ] + lit_let_code(ls, 8) + seq![
                    Instruction::Jump(LabelId::Gen(1)),
                    Instruction::Label(LabelId::Gen(1)),
                    Instruction::Load32(RETURN_REG, Operand::Const(4), FRAME_POINTER),
                    Instruction::AddSigned(STACK_POINTER, FRAME_POINTER, ZERO_REG),
                    Instruction::Load32(FRAME_POINTER, Operand::Const(0), STACK_POINTER),
                    Instruction::JumpR(RETURN_REG),
                ]
            }),
            (single_fn_program(program)
                && program.items@[0]->FunctionItem_0.body.statements@.len() == 1 && (
            match *program.items@[0]->FunctionItem_0.body.statements@[0].expr {
                Expr::CallExpr(c) => c.args@.len() == 0 && c.name@
                    != program.items@[0]->FunctionItem_0.name@,
                Expr::IfExpr(st) => if_mismatch_shape_prim(st),
                _ => false,
            })) ==> i == 0,
        decreases nf - i,
    {
        let ghost mid = data.instructions@;
        proof {
            if single_fn_program(program) {
                if let Expr::CallExpr(c) = &*global.functions@[0].body.statements@[0].expr {
                    if c.name@ != program.items@[0]->FunctionItem_0.name@ {
                        assert(global.ident_table@.drop_first() =~= Seq::<(
                            String,
                            IdentId,
                        )>::empty());
                        assert(lookup_id(global.ident_table@.drop_first(), c.name@) is None);
                        assert(lookup_id(global.ident_table@, c.name@) is None);
                    }
                }
            }
        }
        match data.compile_global_fn(&global, i) {
            Ok(()) => {},
            Err(e) => {
                return Err(e);
            },
        }
        proof {
            lemma_label_count_grows(mid, data.instructions@);
        }
    }

    Ok(data.instructions)
}

/// The code a call emits after an existing prefix: one push segment per
/// argument, then the call to the callee's entry label, then the restore of
/// the one word pushed per argument.
pub open spec fn call_code_shape(
    pre: Seq<Instruction>,
    post: Seq<Instruction>,
    k: int,
    target: LabelId,
) -> bool {
    &&& pre.is_prefix_of(post)
    &&& post.len() >= pre.len() + 2
    &&& post[post.len() - 2] == Instruction::JumpStore(target)
    &&& post[post.len() - 1] == Instruction::SubUnsignedValue(
        STACK_POINTER,
        STACK_POINTER,
        (4 * k) as u16,
    )
    &&& exists|segs: Seq<Seq<Instruction>>|
        #[trigger] arg_push_segments(segs, k) && post.subrange(pre.len() as int, post.len() - 2)
            =~= segs.flatten()
}

/// For every function call, the argument-passing instructions number two
/// per argument: the emitted code decomposes into one segment per argument,
/// and each segment ends with exactly the store of `RESULT_REG` and the
/// one-word stack-pointer advance, so at least `2 * k` instructions stand
/// between the code of the arguments themselves and the call.
pub proof fn lemma_arg_push_count(segs: Seq<Seq<Instruction>>, k: int)
    requires
        arg_push_segments(segs, k),
        k >= 0,
    ensures
        segs.flatten().len() >= 2 * k,
    decreases k,
{
    if k > 0 {
        let init = segs.drop_last();
        assert(arg_push_segments(init, k - 1)) by {
            assert forall|i: int| 0 <= i < init.len() implies {
                let s = #[trigger] init[i];
                &&& s.len() >= 2
                &&& s[s.len() - 2] == Instruction::Store32(
                    Operand::Const(0),
                    STACK_POINTER,
                    RESULT_REG,
                )
                &&& s[s.len() - 1] == Instruction::AddUnsignedValue(STACK_POINTER, STACK_POINTER, 4)
            } by {
                assert(init[i] == segs[i]);
            }
        }
        lemma_arg_push_count(init, k - 1);
        init.lemma_flatten_push(segs.last());
        assert(init.push(segs.last()) =~= segs);
        assert(segs.last().len() >= 2);
    }
}

} // verus!
