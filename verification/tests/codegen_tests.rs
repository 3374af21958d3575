use dlx_codegen::ast::{
    Assignment, Block, Expr, Expression, FunctionCall, FunctionDeclaration, IfStatement, InputSpan,
    Item, LetStatement, LoopStatement, PrimitiveKind, Program, StructDeclaration, TypeRef,
};
use dlx_codegen::codegen::{codegen, CodeData};
use dlx_codegen::error::{CodegenError, Feature};
use dlx_codegen::instr::{Instruction, LabelId, Operand};
use dlx_codegen::scope::{Location, Scope, Variable};
use dlx_codegen::types::Type;

const ZERO: u8 = 0;
const SP: u8 = 14;
const FP: u8 = 30;
const RA: u8 = 31;
const RES: u8 = 1;

fn sp() -> InputSpan {
    InputSpan { start: 0, end: 0 }
}

fn prim(k: PrimitiveKind) -> TypeRef {
    TypeRef::Primitive(k)
}

fn int_ty() -> TypeRef {
    prim(PrimitiveKind::IntType)
}

fn unit_ty() -> TypeRef {
    prim(PrimitiveKind::UnitType)
}

fn expr(e: Expr, rt: TypeRef) -> Expression {
    Expression { expr: Box::new(e), rtype: rt, span: sp() }
}

fn lit(n: i16) -> Expression {
    expr(Expr::LitNumExpr(n), int_ty())
}

fn block(statements: Vec<Expression>, rt: TypeRef) -> Block {
    Block { statements, rtype: rt, span: sp() }
}

fn fn_item(name: &str, params: Vec<(String, TypeRef)>, rt: TypeRef, body: Block) -> Item {
    Item::FunctionItem(FunctionDeclaration {
        name: name.to_string(),
        params,
        rtype: rt,
        body,
        span: sp(),
    })
}

fn let_stmt(name: &str, ty: TypeRef, init: Option<Expression>) -> LetStatement {
    let assignment = init.map(|e| Assignment {
        target: name.to_string(),
        expression: e,
        span: sp(),
    });
    LetStatement { name: name.to_string(), var_type: ty, assignment, span: sp() }
}

/// End-to-end: `fn main() -> () { let x: Int = 5; return; }` compiles to the
/// exact sequence of the calling convention, with the frame reservation
/// patched to 12 bytes (base 8 plus one 4-byte local).
#[test]
fn scenario_main_let_return() {
    let body = block(
        vec![
            expr(Expr::LetExpr(let_stmt("x", int_ty(), Some(lit(5)))), unit_ty()),
            expr(
                Expr::Return(expr(Expr::EmptyExpr, unit_ty())),
                prim(PrimitiveKind::BottomKind),
            ),
        ],
        unit_ty(),
    );
    let program = Program { items: vec![fn_item("main", vec![], unit_ty(), body)] };
    let out = codegen(program).unwrap();
    let expected = vec![
        Instruction::Label(LabelId::Gen(0)),
        Instruction::Store32(Operand::Const(0), SP, FP),
        Instruction::AddSigned(FP, SP, ZERO),
        Instruction::Store32(Operand::Const(4), FP, RA),
        Instruction::AddSignedValue(SP, SP, 12),
        Instruction::AddSignedValue(RES, ZERO, 5),
        Instruction::Store32(Operand::Const(8), FP, RES),
        Instruction::Jump(LabelId::Gen(1)),
        Instruction::Label(LabelId::Gen(1)),
        Instruction::Load32(RA, Operand::Const(4), FP),
        Instruction::AddSigned(SP, FP, ZERO),
        Instruction::Load32(FP, Operand::Const(0), SP),
        Instruction::JumpR(RA),
    ];
    assert_eq!(out, expected);
}

/// End-to-end: calling an undeclared function fails with an
/// identifier-not-found error naming that identifier.
#[test]
fn scenario_undeclared_call() {
    let call = expr(
        Expr::CallExpr(FunctionCall { name: "foo".to_string(), args: vec![], span: sp() }),
        unit_ty(),
    );
    let body = block(vec![call], unit_ty());
    let program = Program { items: vec![fn_item("main", vec![], unit_ty(), body)] };
    match codegen(program) {
        Err(CodegenError::IdentifierNotFound { name, .. }) => assert_eq!(name, "foo"),
        other => panic!("expected identifier-not-found, got {:?}", other),
    }
}

/// End-to-end: `if true { } else { 1 }` fails with a type error naming both
/// branch types (`Unit` expected, `Int` found).
#[test]
fn scenario_branch_type_mismatch() {
    let cond = expr(Expr::EmptyExpr, prim(PrimitiveKind::BoolType));
    let if_stmt = IfStatement {
        condition: cond,
        body: block(vec![], unit_ty()),
        else_block: Some(block(vec![lit(1)], int_ty())),
    };
    let body = block(vec![expr(Expr::IfExpr(if_stmt), unit_ty())], unit_ty());
    let program = Program { items: vec![fn_item("main", vec![], unit_ty(), body)] };
    assert_eq!(
        codegen(program),
        Err(CodegenError::TypeMismatch { expected: Type::Unit, found: Type::Int })
    );
}

/// A well-typed program yields a non-empty sequence with exactly one label
/// per declared function and global.
#[test]
fn one_label_per_declaration() {
    let g = Item::LetItem(let_stmt("g", int_ty(), None));
    let body = block(vec![], unit_ty());
    let program = Program { items: vec![g, fn_item("main", vec![], unit_ty(), body)] };
    let out = codegen(program).unwrap();
    assert!(!out.is_empty());
    let count0 = out.iter().filter(|i| **i == Instruction::Label(LabelId::Gen(0))).count();
    let count1 = out.iter().filter(|i| **i == Instruction::Label(LabelId::Gen(1))).count();
    assert_eq!(count0, 1);
    assert_eq!(count1, 1);
}

/// Declaring the same name twice in one scope is a shadowing error.
#[test]
fn global_shadowing_rejected() {
    let program = Program {
        items: vec![
            Item::LetItem(let_stmt("x", int_ty(), None)),
            Item::LetItem(let_stmt("x", int_ty(), None)),
        ],
    };
    match codegen(program) {
        Err(CodegenError::IdentifierShadowed { name, .. }) => assert_eq!(name, "x"),
        other => panic!("expected shadowing error, got {:?}", other),
    }
}

/// A `let` followed by a function of the same name is also shadowing.
#[test]
fn let_then_fn_shadowing_rejected() {
    let body = block(vec![], unit_ty());
    let program = Program {
        items: vec![
            Item::LetItem(let_stmt("x", int_ty(), None)),
            fn_item("x", vec![], unit_ty(), body),
        ],
    };
    assert!(matches!(
        codegen(program),
        Err(CodegenError::IdentifierShadowed { .. })
    ));
}

/// Two local `let` bindings of the same name in one function are rejected.
#[test]
fn local_shadowing_rejected() {
    let body = block(
        vec![
            expr(Expr::LetExpr(let_stmt("x", int_ty(), None)), unit_ty()),
            expr(Expr::LetExpr(let_stmt("x", int_ty(), None)), unit_ty()),
        ],
        unit_ty(),
    );
    let program = Program { items: vec![fn_item("main", vec![], unit_ty(), body)] };
    assert!(matches!(
        codegen(program),
        Err(CodegenError::IdentifierShadowed { .. })
    ));
}

/// For a two-argument call the emitted argument-passing instructions are two
/// per argument, and the restore after the call subtracts exactly the bytes
/// pushed: 4 per argument.
#[test]
fn call_pushes_and_restores_stack() {
    let callee_body = block(vec![], unit_ty());
    let f = fn_item(
        "f",
        vec![("a".to_string(), int_ty()), ("b".to_string(), int_ty())],
        unit_ty(),
        callee_body,
    );
    let call = expr(
        Expr::CallExpr(FunctionCall {
            name: "f".to_string(),
            args: vec![lit(1), lit(2)],
            span: sp(),
        }),
        unit_ty(),
    );
    let main_body = block(vec![call], unit_ty());
    let program = Program { items: vec![f, fn_item("main", vec![], unit_ty(), main_body)] };
    let out = codegen(program).unwrap();
    let stores = out
        .iter()
        .filter(|i| **i == Instruction::Store32(Operand::Const(0), SP, RES))
        .count();
    let advances = out
        .iter()
        .filter(|i| **i == Instruction::AddUnsignedValue(SP, SP, 4))
        .count();
    assert_eq!(stores, 2);
    assert_eq!(advances, 2);
    assert!(out.contains(&Instruction::JumpStore(LabelId::Gen(0))));
    assert!(out.contains(&Instruction::SubUnsignedValue(SP, SP, 8)));
}

/// A call with no arguments still restores the stack by zero bytes.
#[test]
fn zero_argument_call_restores_zero() {
    let f = fn_item("f", vec![], unit_ty(), block(vec![], unit_ty()));
    let call = expr(
        Expr::CallExpr(FunctionCall { name: "f".to_string(), args: vec![], span: sp() }),
        unit_ty(),
    );
    let main_body = block(vec![call], unit_ty());
    let program = Program { items: vec![f, fn_item("main", vec![], unit_ty(), main_body)] };
    let out = codegen(program).unwrap();
    assert!(out.contains(&Instruction::SubUnsignedValue(SP, SP, 0)));
}

/// Wrong argument count is an arity error.
#[test]
fn call_arity_mismatch() {
    let f = fn_item(
        "f",
        vec![("a".to_string(), int_ty())],
        unit_ty(),
        block(vec![], unit_ty()),
    );
    let call = expr(
        Expr::CallExpr(FunctionCall { name: "f".to_string(), args: vec![], span: sp() }),
        unit_ty(),
    );
    let main_body = block(vec![call], unit_ty());
    let program = Program { items: vec![f, fn_item("main", vec![], unit_ty(), main_body)] };
    assert_eq!(
        codegen(program),
        Err(CodegenError::ArityMismatch { expected_args: 1, found_args: 0 })
    );
}

/// An argument of the wrong type is a type error.
#[test]
fn call_argument_type_mismatch() {
    let f = fn_item(
        "f",
        vec![("a".to_string(), prim(PrimitiveKind::BoolType))],
        unit_ty(),
        block(vec![], unit_ty()),
    );
    let call = expr(
        Expr::CallExpr(FunctionCall { name: "f".to_string(), args: vec![lit(1)], span: sp() }),
        unit_ty(),
    );
    let main_body = block(vec![call], unit_ty());
    let program = Program { items: vec![f, fn_item("main", vec![], unit_ty(), main_body)] };
    assert_eq!(
        codegen(program),
        Err(CodegenError::TypeMismatch { expected: Type::Bool, found: Type::Int })
    );
}

/// Calling a variable is a kind-confusion error.
#[test]
fn calling_a_variable_rejected() {
    let g = Item::LetItem(let_stmt("g", int_ty(), None));
    let call = expr(
        Expr::CallExpr(FunctionCall { name: "g".to_string(), args: vec![], span: sp() }),
        unit_ty(),
    );
    let main_body = block(vec![call], unit_ty());
    let program = Program { items: vec![g, fn_item("main", vec![], unit_ty(), main_body)] };
    match codegen(program) {
        Err(CodegenError::ExpectedFunction { name }) => assert_eq!(name, "g"),
        other => panic!("expected kind-confusion error, got {:?}", other),
    }
}

/// Assigning to a function name is a kind-confusion error.
#[test]
fn assigning_to_function_rejected() {
    let f = fn_item("f", vec![], unit_ty(), block(vec![], unit_ty()));
    let assign = expr(
        Expr::AssignExpr(Assignment { target: "f".to_string(), expression: lit(1), span: sp() }),
        unit_ty(),
    );
    let main_body = block(vec![assign], unit_ty());
    let program = Program { items: vec![f, fn_item("main", vec![], unit_ty(), main_body)] };
    match codegen(program) {
        Err(CodegenError::ExpectedVariable { name }) => assert_eq!(name, "f"),
        other => panic!("expected kind-confusion error, got {:?}", other),
    }
}

/// A conditional without `else` whose body is not `Unit` is rejected.
#[test]
fn if_without_else_must_be_unit() {
    let cond = expr(Expr::EmptyExpr, prim(PrimitiveKind::BoolType));
    let if_stmt = IfStatement {
        condition: cond,
        body: block(vec![lit(1)], int_ty()),
        else_block: None,
    };
    let body = block(vec![expr(Expr::IfExpr(if_stmt), unit_ty())], unit_ty());
    let program = Program { items: vec![fn_item("main", vec![], unit_ty(), body)] };
    assert_eq!(
        codegen(program),
        Err(CodegenError::TypeMismatch { expected: Type::Unit, found: Type::Int })
    );
}

/// A non-boolean condition is rejected, naming `Bool` and the found type.
#[test]
fn non_boolean_condition_rejected() {
    let cond = lit(1);
    let if_stmt =
        IfStatement { condition: cond, body: block(vec![], unit_ty()), else_block: None };
    let body = block(vec![expr(Expr::IfExpr(if_stmt), unit_ty())], unit_ty());
    let program = Program { items: vec![fn_item("main", vec![], unit_ty(), body)] };
    assert_eq!(
        codegen(program),
        Err(CodegenError::TypeMismatch { expected: Type::Bool, found: Type::Int })
    );
}

/// Matched branch types succeed, including when one branch is divergent.
#[test]
fn matched_and_divergent_branches_accepted() {
    let cond = expr(Expr::EmptyExpr, prim(PrimitiveKind::BoolType));
    let if_stmt = IfStatement {
        condition: cond,
        body: block(vec![lit(1)], int_ty()),
        else_block: Some(block(vec![lit(2)], int_ty())),
    };
    let divergent_cond = expr(Expr::EmptyExpr, prim(PrimitiveKind::BoolType));
    let divergent_if = IfStatement {
        condition: divergent_cond,
        body: block(vec![lit(1)], int_ty()),
        else_block: Some(block(vec![], prim(PrimitiveKind::BottomKind))),
    };
    let body = block(
        vec![
            expr(Expr::IfExpr(if_stmt), int_ty()),
            expr(Expr::IfExpr(divergent_if), int_ty()),
        ],
        unit_ty(),
    );
    let program = Program { items: vec![fn_item("main", vec![], unit_ty(), body)] };
    assert!(codegen(program).is_ok());
}

/// `break` outside any loop is a reported error carrying the `break`
/// statement's source span, and generation halts.
#[test]
fn break_outside_loop_reports_span() {
    let brk = Expression {
        expr: Box::new(Expr::Break),
        rtype: unit_ty(),
        span: InputSpan { start: 7, end: 12 },
    };
    let body = block(vec![brk], unit_ty());
    let program = Program { items: vec![fn_item("main", vec![], unit_ty(), body)] };
    assert_eq!(
        codegen(program),
        Err(CodegenError::BreakOutsideLoop { span: InputSpan { start: 7, end: 12 } })
    );
}

/// `break` inside a loop jumps to the loop's end label.
#[test]
fn loop_with_break_compiles() {
    let brk = expr(Expr::Break, prim(PrimitiveKind::BottomKind));
    let loop_stmt = LoopStatement { body: block(vec![brk], unit_ty()) };
    let body = block(vec![expr(Expr::LoopExpr(loop_stmt), unit_ty())], unit_ty());
    let program = Program { items: vec![fn_item("main", vec![], unit_ty(), body)] };
    let out = codegen(program).unwrap();
    // Start label is Gen(2), end label Gen(3): Gen(0) names the function,
    // Gen(1) its end label.
    let start = LabelId::Gen(2);
    let end = LabelId::Gen(3);
    assert!(out.contains(&Instruction::Label(start)));
    assert!(out.contains(&Instruction::Jump(end)));
    assert!(out.contains(&Instruction::Jump(start)));
    assert!(out.contains(&Instruction::Label(end)));
}

/// A loop whose body is not `Unit` is rejected.
#[test]
fn loop_body_must_be_unit() {
    let loop_stmt = LoopStatement { body: block(vec![lit(1)], int_ty()) };
    let body = block(vec![expr(Expr::LoopExpr(loop_stmt), unit_ty())], unit_ty());
    let program = Program { items: vec![fn_item("main", vec![], unit_ty(), body)] };
    assert_eq!(
        codegen(program),
        Err(CodegenError::TypeMismatch { expected: Type::Unit, found: Type::Int })
    );
}

/// Frame size patching: two locals of 4 bytes each patch the reservation to
/// 8 + 8 bytes.
#[test]
fn frame_size_patched_for_two_locals() {
    let body = block(
        vec![
            expr(Expr::LetExpr(let_stmt("x", int_ty(), None)), unit_ty()),
            expr(
                Expr::LetExpr(let_stmt("y", prim(PrimitiveKind::BoolType), None)),
                unit_ty(),
            ),
        ],
        unit_ty(),
    );
    let program = Program { items: vec![fn_item("main", vec![], unit_ty(), body)] };
    let out = codegen(program).unwrap();
    assert_eq!(out[4], Instruction::AddSignedValue(SP, SP, 16));
}

/// Parameters sit at negative frame offsets, the last parameter closest to
/// the frame pointer: with `f(a, b)`, `b` is at 0 and `a` at -4.
#[test]
fn parameters_bound_at_negative_offsets() {
    let read_a = expr(Expr::VariableExpr("a".to_string()), int_ty());
    let read_b = expr(Expr::VariableExpr("b".to_string()), int_ty());
    let body = block(vec![read_a, read_b], unit_ty());
    let f = fn_item(
        "f",
        vec![("a".to_string(), int_ty()), ("b".to_string(), int_ty())],
        unit_ty(),
        body,
    );
    let program = Program { items: vec![f] };
    let out = codegen(program).unwrap();
    assert!(out.contains(&Instruction::Load32(RES, Operand::Const(-4), FP)));
    assert!(out.contains(&Instruction::Load32(RES, Operand::Const(0), FP)));
}

/// Struct declarations are rejected as unsupported.
#[test]
fn struct_declaration_unsupported() {
    let program = Program {
        items: vec![Item::StructItem(StructDeclaration { name: "s".to_string(), span: sp() })],
    };
    assert_eq!(
        codegen(program),
        Err(CodegenError::UnsupportedFeature {
            feature: Feature::StructDeclaration,
            span: sp(),
        })
    );
}

/// A global with a literal initializer allocates one initialized word.
#[test]
fn global_literal_allocates_word() {
    let g = Item::LetItem(let_stmt("g", int_ty(), Some(lit(7))));
    let program = Program { items: vec![g] };
    let out = codegen(program).unwrap();
    assert_eq!(out[0], Instruction::Label(LabelId::Gen(0)));
    assert_eq!(out[1], Instruction::AllocateWords(vec![7]));
}

/// An uninitialized global reserves space sized by its primitive type.
#[test]
fn global_uninitialized_reserves_space() {
    let g = Item::LetItem(let_stmt("g", int_ty(), None));
    let program = Program { items: vec![g] };
    let out = codegen(program).unwrap();
    assert_eq!(out[1], Instruction::AllocateSpace(4));
}

/// A non-literal global initializer is unsupported.
#[test]
fn global_non_literal_initializer_unsupported() {
    let init = expr(Expr::VariableExpr("h".to_string()), int_ty());
    let g = Item::LetItem(let_stmt("g", int_ty(), Some(init)));
    let program = Program { items: vec![g] };
    assert!(matches!(
        codegen(program),
        Err(CodegenError::UnsupportedFeature {
            feature: Feature::NonLiteralGlobalInitializer,
            ..
        })
    ));
}

/// A `let` with a bare type name cannot be resolved against the type table.
#[test]
fn named_let_type_unresolved() {
    let ls = let_stmt("x", TypeRef::Named("Foo".to_string()), None);
    let body = block(vec![expr(Expr::LetExpr(ls), unit_ty())], unit_ty());
    let program = Program { items: vec![fn_item("main", vec![], unit_ty(), body)] };
    assert!(matches!(codegen(program), Err(CodegenError::UnresolvedType { .. })));
}

/// Assignment stores the result register to the target's frame slot.
#[test]
fn assignment_stores_to_frame_offset() {
    let body = block(
        vec![
            expr(Expr::LetExpr(let_stmt("x", int_ty(), None)), unit_ty()),
            expr(
                Expr::AssignExpr(Assignment {
                    target: "x".to_string(),
                    expression: lit(9),
                    span: sp(),
                }),
                unit_ty(),
            ),
        ],
        unit_ty(),
    );
    let program = Program { items: vec![fn_item("main", vec![], unit_ty(), body)] };
    let out = codegen(program).unwrap();
    assert!(out.contains(&Instruction::AddSignedValue(RES, ZERO, 9)));
    assert!(out.contains(&Instruction::Store32(Operand::Const(8), FP, RES)));
}

/// A raw instruction is passed through to the output verbatim.
#[test]
fn raw_instruction_passes_through() {
    let raw = expr(Expr::RawOpExpr("nop r1".to_string()), unit_ty());
    let body = block(vec![raw], unit_ty());
    let program = Program { items: vec![fn_item("main", vec![], unit_ty(), body)] };
    let out = codegen(program).unwrap();
    assert!(out.contains(&Instruction::RawOp("nop r1".to_string())));
}

/// A global variable whose stored location is not a label is an internal
/// inconsistency.
#[test]
fn global_var_without_label_is_internal_error() {
    let mut scope = Scope::new(LabelId::Exit);
    let var = Variable::new(
        "g".to_string(),
        TypeRef::Primitive(PrimitiveKind::IntType),
        None,
        Location::Offset(0),
        sp(),
    )
    .unwrap();
    scope.vars.push(var);
    let mut data = CodeData { instructions: vec![], label_count: 0 };
    assert_eq!(data.compile_global_var(&scope, 0), Err(CodegenError::InternalError));
}

/// A local binding that would push the frame past the 16-bit offset range
/// is rejected.
#[test]
fn frame_offset_overflow_rejected() {
    let mut scope = Scope::new(LabelId::Exit);
    scope.next_offset = i16::MAX - 2;
    let mut data = CodeData { instructions: vec![], label_count: 0 };
    let global = Scope::new(LabelId::Exit);
    let ls = let_stmt("x", int_ty(), None);
    assert!(matches!(
        data.compile_let(&global, &mut scope, &ls),
        Err(CodegenError::OffsetOverflow { .. })
    ));
}

/// The label counter cannot be exhausted silently.
#[test]
fn label_counter_exhaustion_reported() {
    let mut data = CodeData { instructions: vec![], label_count: u64::MAX };
    assert_eq!(data.next_unique_label(), Err(CodegenError::TooManyLabels));
}

/// Fresh labels are issued in sequence and never repeat.
#[test]
fn labels_are_unique_and_sequential() {
    let mut data = CodeData { instructions: vec![], label_count: 0 };
    let a = data.next_unique_label().unwrap();
    let b = data.next_unique_label().unwrap();
    assert_eq!(a, LabelId::Gen(0));
    assert_eq!(b, LabelId::Gen(1));
    assert_ne!(a, b);
}

/// An uninitialized global whose stored type reference is not primitive is
/// an unsupported feature.
#[test]
fn non_primitive_global_unsupported() {
    let mut scope = Scope::new(LabelId::Exit);
    scope.vars.push(Variable {
        name: "g".to_string(),
        var_type: TypeRef::Named("Foo".to_string()),
        assignment: None,
        rtype: Type::Int,
        location: Location::Label(LabelId::Gen(0)),
        span: sp(),
    });
    let mut data = CodeData { instructions: vec![], label_count: 1 };
    assert!(matches!(
        data.compile_global_var(&scope, 0),
        Err(CodegenError::UnsupportedFeature { feature: Feature::NonPrimitiveGlobal, .. })
    ));
}

/// Even a zero-size (Unit-typed) argument occupies one pushed word, and the
/// restore after the call matches the bytes advanced.
#[test]
fn unit_argument_round_trips_stack() {
    let f = fn_item(
        "f",
        vec![("a".to_string(), prim(PrimitiveKind::UnitType))],
        unit_ty(),
        block(vec![], unit_ty()),
    );
    let arg = expr(Expr::EmptyExpr, prim(PrimitiveKind::UnitType));
    let call = expr(
        Expr::CallExpr(FunctionCall { name: "f".to_string(), args: vec![arg], span: sp() }),
        unit_ty(),
    );
    let main_body = block(vec![call], unit_ty());
    let program = Program { items: vec![f, fn_item("main", vec![], unit_ty(), main_body)] };
    let out = codegen(program).unwrap();
    let advances = out
        .iter()
        .filter(|i| **i == Instruction::AddUnsignedValue(SP, SP, 4))
        .count();
    assert_eq!(advances, 1);
    assert!(out.contains(&Instruction::SubUnsignedValue(SP, SP, 4)));
}
