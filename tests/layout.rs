use lowering::abi::{abi_index, abi_signature, link_name, AbiParam, AbiReturn};
use lowering::ir::{EnumType, FuncType, ScalarKind, StructType, Type, TypeKind, Variant};
use lowering::layout::{
    enum_layout, enum_members, largest_variant, lower_type, struct_body, tag_index, types_well_founded, EnumLayout, LowType,
};
use lowering::lir::LType;
use lowering::literal::unescape;
use lowering::ops::{select_binary, select_cast, ArithOp, BinaryLowering, CastOp, IntPred, RealPred};
use lowering::ir::{Binop, Predicate};

fn variant(name: &str, args: Vec<usize>) -> Variant {
    Variant { name: name.to_string(), args }
}

fn shape() -> EnumType {
    EnumType {
        name: "Shape".to_string(),
        variants: vec![variant("Empty", vec![]), variant("Circle", vec![0])],
    }
}

#[test]
fn classification_by_type() {
    assert_eq!(Type::I32.kind(), TypeKind::Scalar);
    assert_eq!(Type::Bool.kind(), TypeKind::Scalar);
    assert_eq!(Type::Pointer(0).kind(), TypeKind::Scalar);
    let f = Type::Func(FuncType { params: vec![], ret: 0, var_args: false });
    assert_eq!(f.kind(), TypeKind::Scalar);
    assert_eq!(Type::Tuple(vec![0, 0]).kind(), TypeKind::Aggregate);
    assert_eq!(Type::Array(0, 4).kind(), TypeKind::Aggregate);
    assert_eq!(Type::Enum(shape()).kind(), TypeKind::Aggregate);
    assert_eq!(Type::Unit.kind(), TypeKind::Unit);
    assert_eq!(Type::I8.scalar_kind(), Some(ScalarKind::Int));
    assert_eq!(Type::F64.scalar_kind(), Some(ScalarKind::Float));
    assert_eq!(f.scalar_kind(), Some(ScalarKind::Pointer));
    assert_eq!(Type::Unit.scalar_kind(), None);
    // The same type gives the same classification every time.
    assert_eq!(Type::Tuple(vec![0]).kind(), Type::Tuple(vec![0]).kind());
}

#[test]
fn signature_drops_unit_and_passes_aggregates_by_address() {
    let types = vec![
        Type::I32,
        Type::Unit,
        Type::Struct(StructType { name: "Pair".to_string(), fields: vec![("a".to_string(), 0), ("b".to_string(), 0)] }),
    ];
    let sig = abi_signature(&types, &FuncType { params: vec![0, 1, 2], ret: 2, var_args: true });
    assert_eq!(sig.params, vec![AbiParam::Value(0), AbiParam::Address(2), AbiParam::Address(2)]);
    assert_eq!(sig.ret, AbiReturn::Slot(2));
    assert!(sig.var_args);
    let sig = abi_signature(&types, &FuncType { params: vec![1], ret: 1, var_args: false });
    assert_eq!(sig.params, vec![]);
    assert_eq!(sig.ret, AbiReturn::Nothing);
    let sig = abi_signature(&types, &FuncType { params: vec![0, 0], ret: 0, var_args: false });
    assert_eq!(sig.params, vec![AbiParam::Value(0), AbiParam::Value(0)]);
    assert_eq!(sig.ret, AbiReturn::Value(0));
}

#[test]
fn machine_position_of_parameters() {
    let types = vec![Type::I32, Type::Unit];
    let params = vec![1, 0, 1, 0];
    assert_eq!(abi_index(&types, &params, 0), 0);
    assert_eq!(abi_index(&types, &params, 1), 0);
    assert_eq!(abi_index(&types, &params, 3), 1);
    assert_eq!(abi_index(&types, &params, 4), 2);
}

#[test]
fn link_name_override_only_for_readdir_on_macos() {
    assert_eq!(link_name(&"readdir".to_string(), true), "readdir$INODE64");
    assert_eq!(link_name(&"readdir".to_string(), false), "readdir");
    assert_eq!(link_name(&"open".to_string(), true), "open");
}

#[test]
fn representation_of_types() {
    let types = vec![
        Type::Bool,
        Type::I16,
        Type::Tuple(vec![0, 1]),
        Type::Func(FuncType { params: vec![2], ret: 1, var_args: false }),
        Type::Enum(shape()),
        Type::Array(1, 3),
        Type::Pointer(4),
        Type::F32,
        Type::Unit,
    ];
    assert_eq!(lower_type(&types, 0), LowType::Int(1));
    assert_eq!(lower_type(&types, 1), LowType::Int(16));
    assert_eq!(lower_type(&types, 2), LowType::Record(vec![0, 1]));
    match lower_type(&types, 3) {
        LowType::Function(sig) => {
            assert_eq!(sig.params, vec![AbiParam::Address(2)]);
            assert_eq!(sig.ret, AbiReturn::Value(1));
        }
        other => panic!("expected a function, got {:?}", other),
    }
    assert_eq!(lower_type(&types, 4), LowType::Named("Shape".to_string()));
    assert_eq!(lower_type(&types, 5), LowType::Array(1, 3));
    assert_eq!(lower_type(&types, 6), LowType::Pointer(4));
    assert_eq!(lower_type(&types, 7), LowType::Float);
    assert_eq!(lower_type(&types, 8), LowType::Void);
}

#[test]
fn struct_body_in_declared_order() {
    let st = StructType { name: "P".to_string(), fields: vec![("x".to_string(), 3), ("y".to_string(), 1)] };
    assert_eq!(struct_body(&st), vec![3, 1]);
}

#[test]
fn tag_position_is_fixed_per_enum() {
    assert_eq!(tag_index(&shape()), 1);
    let flags = EnumType { name: "Flag".to_string(), variants: vec![variant("On", vec![]), variant("Off", vec![])] };
    assert_eq!(tag_index(&flags), 0);
}

#[test]
fn largest_variant_first_of_equals() {
    assert_eq!(largest_variant(&vec![]), None);
    assert_eq!(largest_variant(&vec![3, 7, 7, 1]), Some(1));
    assert_eq!(largest_variant(&vec![8, 8]), Some(0));
    assert_eq!(largest_variant(&vec![0, 0, 5]), Some(2));
}

#[test]
fn enum_storage_sized_to_strictly_largest_variant() {
    let et = EnumType {
        name: "E".to_string(),
        variants: vec![variant("A", vec![0]), variant("B", vec![1, 1]), variant("C", vec![])],
    };
    assert_eq!(enum_layout(&et, &vec![1, 16, 0]), EnumLayout { payload: Some(1), tag_index: 1 });
    let flags = EnumType { name: "F".to_string(), variants: vec![variant("On", vec![]), variant("Off", vec![])] };
    assert_eq!(enum_layout(&flags, &vec![0, 0]), EnumLayout { payload: None, tag_index: 0 });
    assert_eq!(enum_layout(&shape(), &vec![0, 4]), EnumLayout { payload: Some(1), tag_index: 1 });
    assert_eq!(
        enum_members(7, EnumLayout { payload: Some(1), tag_index: 1 }),
        vec![LType::VariantRecord(7, 1), LType::Int(8)]
    );
    assert_eq!(enum_members(7, EnumLayout { payload: None, tag_index: 0 }), vec![LType::Int(8)]);
}

#[test]
fn cast_matrix() {
    assert_eq!(select_cast(&Type::I32, &Type::I8), Some(CastOp::Truncate));
    assert_eq!(select_cast(&Type::I8, &Type::I32), Some(CastOp::SignExtend));
    assert_eq!(select_cast(&Type::I64, &Type::I16), Some(CastOp::Truncate));
    assert_eq!(select_cast(&Type::I16, &Type::I64), Some(CastOp::SignExtend));
    assert_eq!(select_cast(&Type::I32, &Type::I32), Some(CastOp::Identity));
    assert_eq!(select_cast(&Type::F64, &Type::F64), Some(CastOp::Identity));
    assert_eq!(select_cast(&Type::I32, &Type::F64), Some(CastOp::IntToFloat));
    assert_eq!(select_cast(&Type::F32, &Type::I32), Some(CastOp::FloatToInt));
    assert_eq!(select_cast(&Type::F32, &Type::F64), Some(CastOp::FloatExtend));
    assert_eq!(select_cast(&Type::F64, &Type::F32), Some(CastOp::FloatTruncate));
    assert_eq!(select_cast(&Type::Pointer(0), &Type::Pointer(1)), Some(CastOp::PointerCast));
    assert_eq!(select_cast(&Type::F64, &Type::I32), None);
    assert_eq!(select_cast(&Type::Bool, &Type::I32), None);
    assert_eq!(select_cast(&Type::Bool, &Type::Bool), Some(CastOp::Identity));
    assert_eq!(select_cast(&Type::I32, &Type::Pointer(0)), None);
}

#[test]
fn narrowing_wraps_and_widening_sign_extends() {
    // What the selected conversions do to the examples' values.
    assert_eq!(select_cast(&Type::I32, &Type::I8), Some(CastOp::Truncate));
    assert_eq!(300i32 as i8, 44);
    assert_eq!(select_cast(&Type::I8, &Type::I32), Some(CastOp::SignExtend));
    assert_eq!((0xFFu8 as i8) as i32, -1);
}

#[test]
fn operator_table() {
    assert_eq!(select_binary(Binop::Div, ScalarKind::Int), Some(BinaryLowering::Arith(ArithOp::SDiv)));
    assert_eq!(select_binary(Binop::Shr, ScalarKind::Int), Some(BinaryLowering::Arith(ArithOp::LShr)));
    assert_eq!(select_binary(Binop::Add, ScalarKind::Float), Some(BinaryLowering::Arith(ArithOp::FAdd)));
    assert_eq!(select_binary(Binop::Add, ScalarKind::Pointer), Some(BinaryLowering::PointerOffset));
    assert_eq!(select_binary(Binop::Sub, ScalarKind::Pointer), Some(BinaryLowering::PointerDiff));
    assert_eq!(select_binary(Binop::Cmp(Predicate::Lt), ScalarKind::Int), Some(BinaryLowering::IntCompare(IntPred::Slt)));
    assert_eq!(select_binary(Binop::Cmp(Predicate::Ge), ScalarKind::Pointer), Some(BinaryLowering::IntCompare(IntPred::Sge)));
    assert_eq!(select_binary(Binop::Cmp(Predicate::Ne), ScalarKind::Float), Some(BinaryLowering::RealCompare(RealPred::One)));
    assert_eq!(select_binary(Binop::Shl, ScalarKind::Float), None);
    assert_eq!(select_binary(Binop::Mul, ScalarKind::Pointer), None);
}

#[test]
fn string_literal_escapes() {
    let lit: Vec<char> = "\"a\\nb\\tc\\\\d\\qe\"".chars().collect();
    assert_eq!(unescape(&lit), "a\nb\tc\\dqe".chars().collect::<Vec<char>>());
    let empty: Vec<char> = "\"\"".chars().collect();
    assert_eq!(unescape(&empty), Vec::<char>::new());
    let lone: Vec<char> = "\"x\\\"".chars().collect();
    assert_eq!(unescape(&lone), vec!['x']);
}

#[test]
fn representations_must_be_well_founded() {
    // A list node refers to itself through a pointer to the named struct.
    let node = Type::Struct(StructType { name: "Node".to_string(), fields: vec![("next".to_string(), 1)] });
    assert!(types_well_founded(&vec![node, Type::Pointer(0)]));
    assert!(types_well_founded(&vec![Type::I32, Type::Tuple(vec![0, 0]), Type::Array(1, 2)]));
    assert!(!types_well_founded(&vec![Type::Pointer(0)]));
    assert!(!types_well_founded(&vec![Type::Tuple(vec![1]), Type::Array(0, 2)]));
    let f = Type::Func(FuncType { params: vec![1], ret: 1, var_args: false });
    assert!(!types_well_founded(&vec![f, Type::Pointer(0)]));
}
