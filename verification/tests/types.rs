use amy_backend::ast::{FloatBits, Meta, SExpr, Type};
use amy_backend::generator::Generator;
use amy_backend::ir::{convert_types, IrType};

fn boxed(t: Type<'static>) -> Box<Type<'static>> {
    Box::new(t)
}

#[test]
fn types_are_held_in_machine_types() {
    let cases = vec![
        (Type::Int(false, 1), IrType::B1),
        (Type::Int(true, 1), IrType::B1),
        (Type::Int(false, 8), IrType::I8),
        (Type::Int(true, 16), IrType::I16),
        (Type::Int(false, 32), IrType::I32),
        (Type::Int(true, 64), IrType::I64),
        (Type::F32, IrType::F32),
        (Type::F64, IrType::F64),
        (Type::Tuple(vec![]), IrType::B1),
        (Type::Pointer(false, boxed(Type::F32)), IrType::I64),
        (Type::Slice(true, boxed(Type::Struct("S", vec![]))), IrType::I64),
        (Type::Function(vec![], boxed(Type::F32)), IrType::I64),
    ];
    for (t, ir) in &cases {
        assert_eq!(Generator::convert_type_to_type(t), *ir);
    }
    let types: Vec<Type<'static>> = cases.into_iter().map(|(t, _)| t).collect();
    let converted = convert_types(&types);
    assert_eq!(converted.len(), 12);
    assert_eq!(converted[0], IrType::B1);
    assert_eq!(converted[11], IrType::I64);
}

#[test]
fn elements_have_sizes() {
    assert_eq!(Generator::size_of(&Type::Int(false, 1)), 1);
    assert_eq!(Generator::size_of(&Type::Int(true, 8)), 1);
    assert_eq!(Generator::size_of(&Type::Int(false, 16)), 2);
    assert_eq!(Generator::size_of(&Type::Int(false, 32)), 4);
    assert_eq!(Generator::size_of(&Type::Int(true, 64)), 8);
    assert_eq!(Generator::size_of(&Type::F32), 4);
    assert_eq!(Generator::size_of(&Type::F64), 8);
    assert_eq!(Generator::size_of(&Type::Tuple(vec![])), 0);
    assert_eq!(Generator::size_of(&Type::Pointer(true, boxed(Type::F32))), 8);
    assert_eq!(Generator::size_of(&Type::Slice(false, boxed(Type::F32))), 8);
}

#[test]
fn type_parameters_are_found_at_any_depth() {
    let t = || Type::Generic("T");
    assert!(t().has_generic());
    assert!(!Type::F32.has_generic());
    assert!(!Type::Int(false, 7).has_generic());
    assert!(!Type::Tuple(vec![]).has_generic());
    assert!(Type::Tuple(vec![Type::F32, t()]).has_generic());
    assert!(Type::Struct("S", vec![Type::F32, Type::Tuple(vec![t()])]).has_generic());
    assert!(!Type::Struct("T", vec![Type::F32]).has_generic());
    assert!(Type::Pointer(false, boxed(Type::Slice(true, boxed(t())))).has_generic());
    assert!(Type::Function(vec![Type::F32, t()], boxed(Type::F32)).has_generic());
    assert!(Type::Function(vec![], boxed(t())).has_generic());
    assert!(!Type::Function(vec![Type::F32], boxed(Type::F64)).has_generic());
}

#[test]
fn expressions_know_their_types() {
    let meta = || Meta { type_: Type::Int(true, 32) };
    let nil = || Box::new(SExpr::Nil { meta: Meta { type_: Type::F32 } });
    let all = vec![
        SExpr::Int { meta: meta(), value: 1 },
        SExpr::Float { meta: meta(), value: FloatBits { single: 0, double: 0 } },
        SExpr::Str { meta: meta(), value: "" },
        SExpr::Symbol { meta: meta(), value: "" },
        SExpr::Sequence { meta: meta(), values: vec![] },
        SExpr::Cond { meta: meta(), values: vec![], elsy: None },
        SExpr::Loop { meta: meta(), value: nil() },
        SExpr::Break { meta: meta(), value: None },
        SExpr::Nil { meta: meta() },
        SExpr::Type { meta: meta(), value: nil() },
        SExpr::FuncCall { meta: meta(), func: nil(), values: vec![] },
        SExpr::StructSet { meta: meta(), name: "", values: vec![] },
        SExpr::Declare { meta: meta(), mutable: false, variable: "", value: nil() },
        SExpr::Attribute { meta: meta(), top: nil(), attrs: vec![] },
    ];
    for e in &all {
        assert!(matches!(e.meta().type_, Type::Int(true, 32)));
    }
}
