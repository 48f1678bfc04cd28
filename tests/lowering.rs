use lowering::abi::{AbiParam, AbiReturn};
use lowering::ir::{
    Binop, Block, Const, EnumType, Expr, ExprKind, FuncBody, FuncDecl, FuncType, Module, Stmt, StructType, Type,
    Unop, Variant,
};
use lowering::lir::{Inst, LFunction, LType, Operand, Term};
use lowering::lower::{lower_function, LowerError};
use lowering::module::build;
use lowering::ops::{ArithOp, CastOp};

fn ex(ty: usize, kind: ExprKind) -> Expr {
    Expr { ty, kind }
}

fn bx(ty: usize, kind: ExprKind) -> Box<Expr> {
    Box::new(ex(ty, kind))
}

fn lit(ty: usize, digits: &str) -> Expr {
    ex(ty, ExprKind::Integer(digits.to_string()))
}

fn func(params: Vec<usize>, ret: usize) -> FuncType {
    FuncType { params, ret, var_args: false }
}

fn module(types: Vec<Type>, decls: Vec<(&str, FuncType)>, bodies: Vec<FuncBody>) -> Module {
    Module {
        types,
        consts: vec![],
        func_decls: decls.into_iter().map(|(n, ty)| FuncDecl { name: n.to_string(), ty }).collect(),
        func_bodys: bodies,
    }
}

fn body(id: usize, locals: Vec<usize>, stmts: Vec<Stmt>) -> FuncBody {
    FuncBody { id, locals, body: Block { stmts } }
}

fn pair() -> Type {
    Type::Struct(StructType { name: "Pair".to_string(), fields: vec![("a".to_string(), 0), ("b".to_string(), 0)] })
}

fn only_body(m: &Module) -> LFunction {
    lower_function(m, &m.func_bodys[0]).expect("lowers")
}

#[test]
fn add_two_scalars() {
    let ret = Stmt::Return(ex(0, ExprKind::Binary(Binop::Add, bx(0, ExprKind::Param(0)), bx(0, ExprKind::Param(1)))));
    let m = module(
        vec![Type::I32, Type::Func(func(vec![0, 0], 0))],
        vec![("add", func(vec![0, 0], 0))],
        vec![body(0, vec![], vec![ret])],
    );
    let lm = build(&m, false).expect("lowers");
    assert_eq!(lm.decls[0].link_name, "add");
    assert_eq!(lm.decls[0].sig.params, vec![AbiParam::Value(0), AbiParam::Value(0)]);
    assert_eq!(lm.decls[0].sig.ret, AbiReturn::Value(0));
    let f = &lm.bodies[0].1;
    assert_eq!(f.blocks.len(), 1);
    assert_eq!(f.blocks[0].insts, vec![Inst::Arith(ArithOp::Add, Operand::Param(0), Operand::Param(1))]);
    assert_eq!(f.blocks[0].term, Some(Term::Ret(Operand::Inst(0, 0))));
}

#[test]
fn struct_returned_through_slot() {
    let lit = ex(1, ExprKind::Struct(vec![(0, lit(0, "1")), (1, lit(0, "2"))]));
    let m = module(
        vec![Type::I32, pair(), Type::Func(func(vec![], 1))],
        vec![("pair", func(vec![], 1))],
        vec![body(0, vec![], vec![Stmt::Return(lit)])],
    );
    let lm = build(&m, false).expect("lowers");
    assert_eq!(lm.decls[0].sig.params, vec![AbiParam::Address(1)]);
    assert_eq!(lm.decls[0].sig.ret, AbiReturn::Slot(1));
    let f = &lm.bodies[0].1;
    assert_eq!(f.blocks.len(), 1);
    assert_eq!(
        f.blocks[0].insts,
        vec![
            Inst::FieldAddr(LType::Of(1), Operand::Param(0), 0),
            Inst::Digits(0, "1".to_string()),
            Inst::Store(Operand::Inst(0, 1), Operand::Inst(0, 0)),
            Inst::FieldAddr(LType::Of(1), Operand::Param(0), 1),
            Inst::Digits(0, "2".to_string()),
            Inst::Store(Operand::Inst(0, 4), Operand::Inst(0, 3)),
        ]
    );
    assert_eq!(f.blocks[0].term, Some(Term::RetVoid));
}

#[test]
fn struct_literal_fields_read_back() {
    // p = Pair { a: 1, b: 2 }; x = p.b;
    let lit = ex(1, ExprKind::Struct(vec![(0, lit(0, "1")), (1, lit(0, "2"))]));
    let read = ex(0, ExprKind::Field(bx(1, ExprKind::Local(0)), 1));
    let m = module(
        vec![Type::I32, pair(), Type::Unit, Type::Func(func(vec![], 2))],
        vec![("main", func(vec![], 2))],
        vec![body(0, vec![1, 0], vec![
            Stmt::Assign(ex(1, ExprKind::Local(0)), lit),
            Stmt::Assign(ex(0, ExprKind::Local(1)), read),
        ])],
    );
    let f = only_body(&m);
    assert_eq!(f.locals, vec![1, 0]);
    let insts = &f.blocks[0].insts;
    assert_eq!(insts[0], Inst::FieldAddr(LType::Of(1), Operand::Local(0), 0));
    assert_eq!(insts[2], Inst::Store(Operand::Inst(0, 1), Operand::Inst(0, 0)));
    assert_eq!(insts[3], Inst::FieldAddr(LType::Of(1), Operand::Local(0), 1));
    assert_eq!(insts[5], Inst::Store(Operand::Inst(0, 4), Operand::Inst(0, 3)));
    // The read computes the same member address as the write of `b`.
    assert_eq!(insts[6], Inst::FieldAddr(LType::Of(1), Operand::Local(0), 1));
    assert_eq!(insts[7], Inst::Load(LType::Of(0), Operand::Inst(0, 6)));
    assert_eq!(insts[8], Inst::Store(Operand::Inst(0, 7), Operand::Local(1)));
    assert_eq!(f.blocks[0].term, Some(Term::RetVoid));
}

fn shape_types() -> Vec<Type> {
    vec![
        Type::I32,
        Type::Enum(EnumType {
            name: "Shape".to_string(),
            variants: vec![
                Variant { name: "Empty".to_string(), args: vec![] },
                Variant { name: "Circle".to_string(), args: vec![0] },
            ],
        }),
        Type::Unit,
        Type::Func(func(vec![], 2)),
        Type::I8,
    ]
}

#[test]
fn enum_tag_written_and_read_at_one_member() {
    for k in 0..2u32 {
        let args = if k == 0 { vec![] } else { vec![lit(0, "5")] };
        let m = module(
            shape_types(),
            vec![("main", func(vec![], 2))],
            vec![body(0, vec![1, 4], vec![
                Stmt::Assign(ex(1, ExprKind::Local(0)), ex(1, ExprKind::EnumCall(k, args))),
                Stmt::Assign(ex(4, ExprKind::Local(1)), ex(4, ExprKind::EnumTag(bx(1, ExprKind::Local(0))))),
            ])],
        );
        let f = only_body(&m);
        let insts = &f.blocks[0].insts;
        assert_eq!(insts[0], Inst::FieldAddr(LType::Of(1), Operand::Local(0), 1));
        assert_eq!(insts[1], Inst::Store(Operand::Int(LType::Int(8), k as u64), Operand::Inst(0, 0)));
        let n = insts.len();
        assert_eq!(insts[n - 3], Inst::FieldAddr(LType::Of(1), Operand::Local(0), 1));
        assert_eq!(insts[n - 2], Inst::Load(LType::Int(8), Operand::Inst(0, n - 3)));
        assert_eq!(insts[n - 1], Inst::Store(Operand::Inst(0, n - 2), Operand::Local(1)));
    }
}

#[test]
fn enum_argument_written_and_read_through_variant_record() {
    let m = module(
        shape_types(),
        vec![("main", func(vec![], 2))],
        vec![body(0, vec![1, 0], vec![
            Stmt::Assign(ex(1, ExprKind::Local(0)), ex(1, ExprKind::EnumCall(1, vec![lit(0, "5")]))),
            Stmt::Assign(ex(0, ExprKind::Local(1)), ex(0, ExprKind::EnumField(bx(1, ExprKind::Local(0)), 1, 0))),
        ])],
    );
    let f = only_body(&m);
    let insts = &f.blocks[0].insts;
    let path = |at: usize| {
        vec![
            Inst::FieldAddr(LType::Of(1), Operand::Local(0), 0),
            Inst::Reinterpret(Operand::Inst(0, at), LType::VariantRecord(1, 1)),
            Inst::FieldAddr(LType::VariantRecord(1, 1), Operand::Inst(0, at + 1), 0),
        ]
    };
    assert_eq!(insts[2..5].to_vec(), path(2));
    assert_eq!(insts[5], Inst::Digits(0, "5".to_string()));
    assert_eq!(insts[6], Inst::Store(Operand::Inst(0, 5), Operand::Inst(0, 4)));
    assert_eq!(insts[7..10].to_vec(), path(7));
    assert_eq!(insts[10], Inst::Load(LType::Of(0), Operand::Inst(0, 9)));
}

#[test]
fn if_ending_in_return_adds_no_fallthrough() {
    let m = module(
        vec![Type::Bool, Type::I32, Type::Func(func(vec![0], 1))],
        vec![("f", func(vec![0], 1))],
        vec![body(0, vec![], vec![
            Stmt::If(ex(0, ExprKind::Param(0)), Block { stmts: vec![Stmt::Return(lit(1, "1"))] }),
            Stmt::Return(lit(1, "0")),
        ])],
    );
    let f = only_body(&m);
    assert_eq!(f.blocks.len(), 3);
    assert_eq!(f.blocks[0].term, Some(Term::CondBr(Operand::Param(0), 1, 2)));
    assert_eq!(f.blocks[1].term, Some(Term::Ret(Operand::Inst(1, 0))));
    assert_eq!(f.blocks[2].term, Some(Term::Ret(Operand::Inst(2, 0))));
    for b in &f.blocks {
        assert_ne!(b.term, Some(Term::Br(2)));
    }
}

#[test]
fn if_without_exit_falls_through() {
    let m = module(
        vec![Type::Bool, Type::Unit, Type::Func(func(vec![0], 1))],
        vec![("f", func(vec![0], 1))],
        vec![body(0, vec![], vec![Stmt::If(ex(0, ExprKind::Param(0)), Block { stmts: vec![] })])],
    );
    let f = only_body(&m);
    assert_eq!(f.blocks[1].term, Some(Term::Br(2)));
    assert_eq!(f.blocks[2].term, Some(Term::RetVoid));
}

#[test]
fn break_exits_only_the_innermost_loop() {
    let cond = || ex(0, ExprKind::Param(0));
    let inner = Stmt::While(cond(), Block { stmts: vec![Stmt::Break] });
    let outer = Stmt::For(vec![], cond(), vec![], Block { stmts: vec![inner] });
    let m = module(
        vec![Type::Bool, Type::Unit, Type::Func(func(vec![0], 1))],
        vec![("f", func(vec![0], 1))],
        vec![body(0, vec![], vec![outer])],
    );
    let f = only_body(&m);
    // for: head 1, body 2, post-step 3, exit 4; while: head 5, body 6, exit 7.
    assert_eq!(f.blocks.len(), 8);
    assert_eq!(f.blocks[0].term, Some(Term::Br(1)));
    assert_eq!(f.blocks[1].term, Some(Term::CondBr(Operand::Param(0), 2, 4)));
    assert_eq!(f.blocks[2].term, Some(Term::Br(5)));
    assert_eq!(f.blocks[5].term, Some(Term::CondBr(Operand::Param(0), 6, 7)));
    assert_eq!(f.blocks[6].term, Some(Term::Br(7)));
    assert_eq!(f.blocks[7].term, Some(Term::Br(3)));
    assert_eq!(f.blocks[3].term, Some(Term::Br(1)));
    assert_eq!(f.blocks[4].term, Some(Term::RetVoid));
}

#[test]
fn continue_goes_to_post_step_and_loop_head() {
    let cond = || ex(0, ExprKind::Param(0));
    let m = module(
        vec![Type::Bool, Type::Unit, Type::Func(func(vec![0], 1))],
        vec![("f", func(vec![0], 1))],
        vec![body(0, vec![], vec![
            Stmt::For(vec![], cond(), vec![], Block { stmts: vec![Stmt::Continue] }),
            Stmt::While(cond(), Block { stmts: vec![Stmt::Continue] }),
        ])],
    );
    let f = only_body(&m);
    assert_eq!(f.blocks[2].term, Some(Term::Br(3)));
    // while: head 5, body 6, exit 7
    assert_eq!(f.blocks[6].term, Some(Term::Br(5)));
    assert_eq!(f.blocks[7].term, Some(Term::RetVoid));
}

#[test]
fn every_block_terminated_once() {
    let cond = || ex(0, ExprKind::Param(0));
    let m = module(
        vec![Type::Bool, Type::Unit, Type::Func(func(vec![0], 1))],
        vec![("f", func(vec![0], 1))],
        vec![body(0, vec![], vec![
            Stmt::While(cond(), Block { stmts: vec![Stmt::Break, Stmt::Continue, Stmt::Return(ex(1, ExprKind::Unit))] }),
            Stmt::Return(ex(1, ExprKind::Unit)),
            Stmt::Return(ex(1, ExprKind::Unit)),
        ])],
    );
    let f = only_body(&m);
    assert_eq!(f.blocks[2].term, Some(Term::Br(3)));
    assert_eq!(f.blocks[3].term, Some(Term::RetVoid));
    for b in &f.blocks {
        assert!(b.term.is_some());
    }
}

#[test]
fn aggregate_call_passes_destination_last() {
    // make(7, ()) returns a Pair: the unit argument is dropped and the
    // destination follows the one scalar argument.
    let call = ex(1, ExprKind::Call(bx(3, ExprKind::Func(0)), vec![lit(0, "7"), ex(2, ExprKind::Unit)]));
    let m = module(
        vec![Type::I32, pair(), Type::Unit, Type::Func(func(vec![0, 2], 1)), Type::Func(func(vec![], 2))],
        vec![("make", func(vec![0, 2], 1)), ("main", func(vec![], 2))],
        vec![body(1, vec![], vec![Stmt::Expr(call)])],
    );
    let lm = build(&m, false).expect("lowers");
    assert_eq!(lm.decls[0].sig.params, vec![AbiParam::Value(0), AbiParam::Address(1)]);
    assert_eq!(lm.decls[0].sig.ret, AbiReturn::Slot(1));
    let f = &lm.bodies[0].1;
    assert_eq!(lm.bodies[0].0, 1);
    assert_eq!(
        f.blocks[0].insts,
        vec![
            Inst::Alloca(LType::Of(1)),
            Inst::Digits(0, "7".to_string()),
            Inst::Call(3, Operand::Func(0), vec![Operand::Inst(0, 1), Operand::Inst(0, 0)]),
        ]
    );
}

#[test]
fn scalar_call_has_no_destination() {
    let call = ex(0, ExprKind::Call(bx(2, ExprKind::Func(0)), vec![lit(0, "7")]));
    let m = module(
        vec![Type::I32, Type::Unit, Type::Func(func(vec![0], 0)), Type::Func(func(vec![], 1))],
        vec![("id", func(vec![0], 0)), ("main", func(vec![], 1))],
        vec![body(1, vec![], vec![Stmt::Expr(call)])],
    );
    let lm = build(&m, false).expect("lowers");
    assert_eq!(
        lm.bodies[0].1.blocks[0].insts,
        vec![Inst::Digits(0, "7".to_string()), Inst::Call(2, Operand::Func(0), vec![Operand::Inst(0, 0)])]
    );
}

#[test]
fn cast_lowering() {
    // fn f(x: i32) -> i8 { return x as i8; }
    let m = module(
        vec![Type::I32, Type::I8, Type::Func(func(vec![0], 1))],
        vec![("f", func(vec![0], 1))],
        vec![body(0, vec![], vec![Stmt::Return(ex(1, ExprKind::Cast(bx(0, ExprKind::Param(0)), 1)))])],
    );
    let f = only_body(&m);
    assert_eq!(f.blocks[0].insts, vec![Inst::Convert(CastOp::Truncate, Operand::Param(0), 1)]);
    let m = module(
        vec![Type::I8, Type::I32, Type::Func(func(vec![0], 1))],
        vec![("g", func(vec![0], 1))],
        vec![body(0, vec![], vec![Stmt::Return(ex(1, ExprKind::Cast(bx(0, ExprKind::Param(0)), 1)))])],
    );
    let f = only_body(&m);
    assert_eq!(f.blocks[0].insts, vec![Inst::Convert(CastOp::SignExtend, Operand::Param(0), 1)]);
}

#[test]
fn unit_parameter_takes_no_slot() {
    // fn f(u: (), x: i32) -> i32 { return x; }
    let m = module(
        vec![Type::Unit, Type::I32, Type::Func(func(vec![0, 1], 1))],
        vec![("f", func(vec![0, 1], 1))],
        vec![body(0, vec![], vec![Stmt::Return(ex(1, ExprKind::Param(1)))])],
    );
    let f = only_body(&m);
    assert_eq!(f.blocks[0].term, Some(Term::Ret(Operand::Param(0))));
}

#[test]
fn pointer_arithmetic_and_index() {
    // fn f(p: *i32, i: i32) -> i32 { return p[i] + *(p + i); }
    let p = || bx(1, ExprKind::Param(0));
    let i = || bx(0, ExprKind::Param(1));
    let sum = ex(0, ExprKind::Binary(
        Binop::Add,
        bx(0, ExprKind::Index(p(), i())),
        bx(0, ExprKind::Unary(Unop::Deref, bx(1, ExprKind::Binary(Binop::Add, p(), i())))),
    ));
    let m = module(
        vec![Type::I32, Type::Pointer(0), Type::Func(func(vec![1, 0], 0))],
        vec![("f", func(vec![1, 0], 0))],
        vec![body(0, vec![], vec![Stmt::Return(sum)])],
    );
    let f = only_body(&m);
    assert_eq!(
        f.blocks[0].insts,
        vec![
            Inst::ElemAddr(LType::Of(0), Operand::Param(0), Operand::Param(1)),
            Inst::Load(LType::Of(0), Operand::Inst(0, 0)),
            Inst::ElemAddr(LType::Of(0), Operand::Param(0), Operand::Param(1)),
            Inst::Load(LType::Of(0), Operand::Inst(0, 2)),
            Inst::Arith(ArithOp::Add, Operand::Inst(0, 1), Operand::Inst(0, 3)),
        ]
    );
}

#[test]
fn string_literal_becomes_global() {
    let lit: Vec<char> = "\"hi\\n\"".chars().collect();
    let m = module(
        vec![Type::I8, Type::Pointer(0), Type::Func(func(vec![], 1))],
        vec![("s", func(vec![], 1))],
        vec![body(0, vec![], vec![Stmt::Return(ex(1, ExprKind::String(lit)))])],
    );
    let f = only_body(&m);
    assert_eq!(f.blocks[0].insts, vec![Inst::GlobalString(vec!['h', 'i', '\n'])]);
}

#[test]
fn constants_are_integer_literals() {
    let mut m = module(vec![Type::I32, Type::Unit], vec![], vec![]);
    m.consts = vec![Const { expr: lit(0, "42") }];
    let lm = build(&m, false).expect("lowers");
    assert_eq!(lm.consts, vec![(0, "42".to_string())]);
    m.consts.push(Const { expr: ex(1, ExprKind::Unit) });
    assert_eq!(build(&m, false).err(), Some(LowerError::ConstNotLiteral));
}

fn lower_one(types: Vec<Type>, ft: FuncType, locals: Vec<usize>, stmts: Vec<Stmt>) -> Result<LFunction, LowerError> {
    let m = module(types, vec![("f", ft)], vec![body(0, locals, stmts)]);
    lower_function(&m, &m.func_bodys[0])
}

#[test]
fn contract_violations_are_reported() {
    let unit = || vec![Type::Unit, Type::I32, Type::F64, Type::Func(func(vec![], 0))];
    assert_eq!(lower_one(unit(), func(vec![], 0), vec![], vec![Stmt::Break]).err(), Some(LowerError::BreakOutsideLoop));
    assert_eq!(lower_one(unit(), func(vec![], 0), vec![], vec![Stmt::Continue]).err(), Some(LowerError::ContinueOutsideLoop));
    let bad_cast = Stmt::Expr(ex(1, ExprKind::Cast(bx(2, ExprKind::Float("1.5".to_string())), 1)));
    assert_eq!(lower_one(unit(), func(vec![], 0), vec![], vec![bad_cast]).err(), Some(LowerError::UnsupportedCast));
    let not_place = Stmt::Assign(lit(1, "1"), lit(1, "2"));
    assert_eq!(lower_one(unit(), func(vec![], 0), vec![], vec![not_place]).err(), Some(LowerError::NotAPlace));
    let shift = Stmt::Expr(ex(2, ExprKind::Binary(Binop::Shl, bx(2, ExprKind::Float("1.0".to_string())), bx(2, ExprKind::Float("2.0".to_string())))));
    assert_eq!(lower_one(unit(), func(vec![], 0), vec![], vec![shift]).err(), Some(LowerError::UnsupportedOperator));
    let missing_local = Stmt::Expr(ex(1, ExprKind::Local(3)));
    assert_eq!(lower_one(unit(), func(vec![], 0), vec![], vec![missing_local]).err(), Some(LowerError::BadReference));
    let scalar_param_place = Stmt::Assign(ex(1, ExprKind::Param(0)), lit(1, "2"));
    assert_eq!(lower_one(unit(), func(vec![1], 0), vec![], vec![scalar_param_place]).err(), Some(LowerError::NotAPlace));
    let bad_table = vec![Type::Pointer(9), Type::Func(func(vec![], 0))];
    assert_eq!(lower_one(bad_table, func(vec![], 0), vec![], vec![]).err(), Some(LowerError::BadReference));
    let cyclic = vec![Type::Unit, Type::Tuple(vec![2]), Type::Array(1, 3)];
    assert_eq!(lower_one(cyclic, func(vec![], 0), vec![], vec![]).err(), Some(LowerError::CyclicType));
    let m = Module { types: vec![Type::Pointer(0)], consts: vec![], func_decls: vec![], func_bodys: vec![] };
    assert_eq!(build(&m, false).err(), Some(LowerError::CyclicType));
}

#[test]
fn link_names_in_module() {
    let m = module(
        vec![Type::Unit, Type::Func(func(vec![], 0))],
        vec![("readdir", func(vec![], 0)), ("main", func(vec![], 0))],
        vec![],
    );
    let lm = build(&m, true).expect("lowers");
    assert_eq!(lm.decls[0].link_name, "readdir$INODE64");
    assert_eq!(lm.decls[1].link_name, "main");
    let lm = build(&m, false).expect("lowers");
    assert_eq!(lm.decls[0].link_name, "readdir");
}
