use amy_backend::ast::Type;
use amy_backend::generator::Generator;

fn integer(signed: bool, width: u8) -> Type<'static> {
    Type::Int(signed, width)
}

fn unit() -> Type<'static> {
    Type::Tuple(vec![])
}

fn pointer(mutable: bool, t: Type<'static>) -> Type<'static> {
    Type::Pointer(mutable, Box::new(t))
}

fn slice(mutable: bool, t: Type<'static>) -> Type<'static> {
    Type::Slice(mutable, Box::new(t))
}

fn function(args: Vec<Type<'static>>, ret: Type<'static>) -> Type<'static> {
    Type::Function(args, Box::new(ret))
}

fn spelled(t: &Type<'_>) -> String {
    let mut s = String::new();
    Generator::mangle_type(&mut s, t);
    s
}

#[test]
fn types_have_short_spellings() {
    assert_eq!(spelled(&integer(false, 8)), "u8");
    assert_eq!(spelled(&integer(true, 64)), "i64");
    assert_eq!(spelled(&integer(false, 0)), "u0");
    assert_eq!(spelled(&integer(true, 255)), "i255");
    assert_eq!(spelled(&Type::F32), "f");
    assert_eq!(spelled(&Type::F64), "F");
    assert_eq!(spelled(&unit()), "N");
    assert_eq!(spelled(&pointer(false, integer(false, 8))), "pu8");
    assert_eq!(spelled(&pointer(true, Type::F32)), "Pf");
    assert_eq!(spelled(&slice(false, unit())), "sN");
    assert_eq!(spelled(&slice(true, pointer(false, Type::F64))), "SpF");
    assert_eq!(spelled(&function(vec![], unit())), "U:N");
    assert_eq!(
        spelled(&function(vec![integer(true, 32), Type::F32, unit()], integer(false, 1))),
        "Ui32,f,N:u1"
    );
}

#[test]
fn a_spelling_is_appended() {
    let mut s = String::from("x=");
    Generator::mangle_type(&mut s, &integer(true, 16));
    assert_eq!(s, "x=i16");
}

#[test]
fn symbols_hold_name_parameters_and_result() {
    let (a, b) = (integer(false, 64), slice(false, integer(false, 8)));
    assert_eq!(Generator::mangle_func("f", &vec![], &unit()), "amy_f@:N");
    assert_eq!(Generator::mangle_func("f", &vec![&a], &unit()), "amy_f@u64:N");
    assert_eq!(Generator::mangle_func("put", &vec![&b, &a], &a), "amy_put@su8,u64:u64");
    assert_eq!(Generator::mangle_func("", &vec![], &a), "amy_@:u64");
}

#[test]
fn main_keeps_its_name() {
    let a = integer(false, 64);
    assert_eq!(Generator::mangle_func("main", &vec![], &a), "main");
    assert_eq!(Generator::mangle_func("main", &vec![&a, &a], &Type::F32), "main");
    assert_eq!(Generator::mangle_func("main", &vec![&Type::Generic("T")], &a), "main");
    assert_eq!(Generator::mangle_func("mainly", &vec![], &a), "amy_mainly@:u64");
}

#[test]
fn different_functions_have_different_symbols() {
    let types = [
        integer(false, 8),
        integer(true, 8),
        Type::F32,
        Type::F64,
        unit(),
        pointer(false, integer(false, 8)),
        pointer(true, integer(false, 8)),
        slice(false, integer(false, 8)),
        slice(true, integer(false, 8)),
        function(vec![], unit()),
        function(vec![unit()], unit()),
        function(vec![function(vec![], unit())], unit()),
    ];
    let mut symbols = vec![];
    for ret in &types {
        symbols.push(Generator::mangle_func("f", &vec![], ret));
        symbols.push(Generator::mangle_func("g", &vec![], ret));
        for a in &types {
            symbols.push(Generator::mangle_func("f", &vec![a], ret));
            for b in &types {
                symbols.push(Generator::mangle_func("f", &vec![a, b], ret));
            }
        }
    }
    let count = symbols.len();
    symbols.sort();
    symbols.dedup();
    assert_eq!(symbols.len(), count);
}

#[test]
fn a_name_with_an_at_sign_is_told_apart() {
    let a = integer(false, 8);
    let x = Generator::mangle_func("f@u8", &vec![], &a);
    let y = Generator::mangle_func("f", &vec![&a], &a);
    assert_eq!(x, "amy_f@u8@:u8");
    assert_eq!(y, "amy_f@u8:u8");
    assert_ne!(x, y);
}

#[test]
fn the_same_function_has_the_same_symbol() {
    let make = || function(vec![slice(true, integer(false, 8))], pointer(false, unit()));
    let x = Generator::mangle_func("f", &vec![&make(), &Type::F64], &make());
    let y = Generator::mangle_func("f", &vec![&make(), &Type::F64], &make());
    assert_eq!(x, "amy_f@USu8:pN,F:USu8:pN");
    assert_eq!(x, y);
}
