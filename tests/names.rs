use lowering::ir::{FuncType, StructType, Type};
use lowering::names::{type_eq, Def, NameTable, TypeIntern};

fn point(second: &str) -> Type {
    Type::Struct(StructType { name: "P".to_string(), fields: vec![("x".to_string(), 0), (second.to_string(), 0)] })
}

#[test]
fn interning_keeps_one_entry_per_type() {
    let mut t = TypeIntern::new();
    assert_eq!(t.intern(Type::I8), 0);
    assert_eq!(t.intern(Type::I32), 1);
    assert_eq!(t.intern(Type::I8), 0);
    assert_eq!(t.intern(Type::Pointer(1)), 2);
    assert_eq!(t.intern(Type::Pointer(1)), 2);
    assert_eq!(t.intern(Type::Pointer(0)), 3);
    assert_eq!(t.types.len(), 4);
    assert_eq!(t.get(3), &Type::Pointer(0));
}

#[test]
fn interning_compares_structure() {
    let mut t = TypeIntern::new();
    assert_eq!(t.intern(point("y")), 0);
    assert_eq!(t.intern(point("z")), 1);
    assert_eq!(t.intern(point("y")), 0);
    let f = |ret| Type::Func(FuncType { params: vec![0, 1], ret, var_args: false });
    assert_eq!(t.intern(f(0)), 2);
    assert_eq!(t.intern(f(1)), 3);
    assert_eq!(t.intern(f(0)), 2);
    assert_eq!(t.intern(Type::Tuple(vec![0, 1])), 4);
    assert_eq!(t.intern(Type::Tuple(vec![1, 0])), 5);
    assert!(type_eq(&Type::Array(0, 3), &Type::Array(0, 3)));
    assert!(!type_eq(&Type::Array(0, 3), &Type::Array(0, 4)));
    assert!(!type_eq(&Type::I8, &Type::I16));
}

#[test]
fn names_and_scopes() {
    let mut names = NameTable::new();
    names.def("i32".to_string(), Def::Type(1));
    names.def("main".to_string(), Def::Func(0));
    let scope = names.enter_scope();
    assert_eq!(scope, 2);
    names.def("x".to_string(), Def::Param(0));
    names.def("y".to_string(), Def::Local(0));
    names.def("x".to_string(), Def::Local(1));
    // The first definition of a name is the one found.
    assert_eq!(names.get(&"x".to_string()), Some(Def::Param(0)));
    assert_eq!(names.get(&"main".to_string()), Some(Def::Func(0)));
    names.exit_scope(scope);
    assert_eq!(names.get(&"x".to_string()), None);
    assert_eq!(names.get(&"y".to_string()), None);
    assert_eq!(names.get(&"i32".to_string()), Some(Def::Type(1)));
    names.exit_scope(7);
    assert_eq!(names.names.len(), 2);
}
