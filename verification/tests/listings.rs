use amy_backend::ast::{FloatBits, LValue, Meta, SExpr, Type};
use amy_backend::generator::Generator;

fn u64_() -> Type<'static> {
    Type::Int(false, 64)
}

fn unit() -> Type<'static> {
    Type::Tuple(vec![])
}

fn meta<'a>(type_: Type<'a>) -> Meta<'a> {
    Meta { type_ }
}

fn number<'a>(value: u64) -> SExpr<'a> {
    SExpr::Int { meta: meta(u64_()), value }
}

fn flag<'a>(value: u64) -> SExpr<'a> {
    SExpr::Int { meta: meta(Type::Int(false, 1)), value }
}

fn name<'a>(value: &'a str) -> SExpr<'a> {
    SExpr::Symbol { meta: meta(u64_()), value }
}

fn text<'a>(value: &'a str) -> SExpr<'a> {
    SExpr::Str { meta: meta(Type::Slice(false, Box::new(Type::Int(false, 8)))), value }
}

fn call<'a>(t: Type<'a>, func: &'a str, values: Vec<SExpr<'a>>) -> SExpr<'a> {
    SExpr::FuncCall { meta: meta(t), func: Box::new(name(func)), values }
}

fn call_typed<'a>(func: &'a str, t: Type<'a>, values: Vec<SExpr<'a>>) -> SExpr<'a> {
    SExpr::FuncCall {
        meta: meta(u64_()),
        func: Box::new(SExpr::Symbol { meta: meta(t), value: func }),
        values,
    }
}

fn function<'a>(args: Vec<Type<'a>>, ret: Type<'a>) -> Type<'a> {
    Type::Function(args, Box::new(ret))
}

fn sequence<'a>(values: Vec<SExpr<'a>>) -> SExpr<'a> {
    SExpr::Sequence { meta: meta(u64_()), values }
}

fn declare<'a>(variable: &'a str, value: SExpr<'a>) -> SExpr<'a> {
    SExpr::Declare { meta: meta(u64_()), mutable: true, variable, value: Box::new(value) }
}

fn listing(args: Vec<(&str, Type<'_>)>, ret_type: Type<'_>, expr: SExpr<'_>) -> String {
    let e = SExpr::FuncDef {
        meta: meta(unit()),
        name: "f",
        ret_type,
        args,
        expr: Box::new(expr),
    };
    assert!(Generator::can_compile(&e));
    let mut g = Generator::try_default().unwrap();
    let r = g.compile(vec![e]);
    let l = g.take_listings().remove(0);
    println!("{}", l);
    assert_eq!(r, Ok(()));
    assert!(g.emit_object().is_ok());
    l
}

fn i64_slice() -> Type<'static> {
    Type::Slice(true, Box::new(u64_()))
}

#[test]
fn a_condition_is_a_branch() {
    let e = SExpr::Cond {
        meta: meta(u64_()),
        values: vec![(call(Type::Int(false, 1), "<", vec![name("x"), number(10)]), number(1))],
        elsy: Some(Box::new(name("x"))),
    };
    assert_eq!(listing(vec![("x", u64_())], u64_(), e), "\
function u0:0(i64) -> i64 system_v {\n\
block0(v0: i64):\n\
\x20   v5 -> v0\n\
\x20   v2 = iconst.i64 10\n\
\x20   v3 = icmp ult v0, v2\n\
\x20   brz v3, block1\n\
\x20   jump block2\n\
\n\
block2:\n\
\x20   v4 = iconst.i64 1\n\
\x20   jump block3(v4)\n\
\n\
block1:\n\
\x20   jump block3(v5)\n\
\n\
block3(v1: i64):\n\
\x20   return v1\n\
}\n\
");
}

#[test]
fn a_loop_counts() {
    let e = sequence(vec![
        declare("i", number(0)),
        SExpr::Loop {
            meta: meta(unit()),
            value: Box::new(sequence(vec![
                SExpr::Cond {
                    meta: meta(unit()),
                    values: vec![(
                        call(Type::Int(true, 1), "<", vec![number(9), name("i")]),
                        SExpr::Break { meta: meta(unit()), value: None },
                    )],
                    elsy: None,
                },
                SExpr::Assign {
                    meta: meta(u64_()),
                    lvalue: LValue::Symbol("i"),
                    value: Box::new(call(u64_(), "+", vec![name("i"), number(1)])),
                },
            ])),
        },
        name("i"),
    ]);
    assert_eq!(listing(vec![], u64_(), e), "\
function u0:0() -> i64 system_v {\n\
block0:\n\
\x20   v0 = iconst.i64 0\n\
\x20   jump block1(v0)\n\
\n\
block1(v4: i64):\n\
\x20   v13 -> v4\n\
\x20   v12 -> v13\n\
\x20   v3 = iconst.i64 9\n\
\x20   v5 = icmp slt v3, v4\n\
\x20   brz v5, block3\n\
\x20   jump block4\n\
\n\
block4:\n\
\x20   v6 = bconst.b1 false\n\
\x20   jump block2(v6)\n\
\n\
block6:\n\
\x20   v15 = iconst.i64 0\n\
\x20   v14 -> v15\n\
\x20   v7 = bconst.b1 false\n\
\x20   jump block5(v7, v14)\n\
\n\
block3:\n\
\x20   v8 = bconst.b1 false\n\
\x20   jump block5(v8, v4)\n\
\n\
block5(v2: b1, v9: i64):\n\
\x20   v10 = iconst.i64 1\n\
\x20   v11 = iadd v9, v10\n\
\x20   jump block1(v11)\n\
\n\
block2(v1: b1):\n\
\x20   return v12\n\
}\n\
");
}

#[test]
fn texts_are_symbols_and_slots() {
    assert_eq!(listing(vec![], u64_(), sequence(vec![text("hello"), text("you")])), "\
function u0:0() -> i64 system_v {\n\
\x20   ss0 = explicit_slot 16\n\
\x20   ss1 = explicit_slot 16\n\
\x20   gv0 = symbol colocated u1:0\n\
\x20   gv1 = symbol colocated u1:1\n\
\n\
block0:\n\
\x20   v0 = iconst.i64 5\n\
\x20   v1 = global_value.i64 gv0\n\
\x20   stack_store v0, ss0\n\
\x20   stack_store v1, ss0+8\n\
\x20   v2 = stack_addr.i64 ss0\n\
\x20   v3 = iconst.i64 3\n\
\x20   v4 = global_value.i64 gv1\n\
\x20   stack_store v3, ss1\n\
\x20   stack_store v4, ss1+8\n\
\x20   v5 = stack_addr.i64 ss1\n\
\x20   return v5\n\
}\n\
");
}

#[test]
fn calls_go_by_symbol_and_by_address() {
    let t = || function(vec![u64_()], u64_());
    let e = call_typed("g", t(), vec![call_typed("h", t(), vec![number(1)])]);
    assert_eq!(listing(vec![("g", t())], u64_(), e), "\
function u0:0(i64) -> i64 system_v {\n\
\x20   sig0 = (i64) -> i64 system_v\n\
\x20   sig1 = (i64) -> i64 system_v\n\
\x20   fn0 = u0:0 sig0\n\
\n\
block0(v0: i64):\n\
\x20   v1 = iconst.i64 1\n\
\x20   v2 = call fn0(v1)\n\
\x20   v3 = call_indirect sig1, v0(v2)\n\
\x20   return v3\n\
}\n\
");
}

#[test]
fn a_function_has_an_address() {
    let t = function(vec![Type::F32], Type::Int(false, 8));
    let e = SExpr::Symbol { meta: meta(t), value: "h" };
    assert_eq!(listing(vec![], u64_(), e), "\
function u0:0() -> i64 system_v {\n\
\x20   sig0 = (f32) -> i8 system_v\n\
\x20   fn0 = u0:0 sig0\n\
\n\
block0:\n\
\x20   v0 = func_addr.i64 fn0\n\
\x20   return v0\n\
}\n\
");
}

#[test]
fn a_system_call_is_a_call() {
    let values = (0..7).map(number).collect();
    assert_eq!(listing(vec![], u64_(), call(u64_(), "syscall", values)), "\
function u0:0() -> i64 system_v {\n\
\x20   sig0 = (i64, i64, i64, i64, i64, i64, i64) -> i64 system_v\n\
\x20   fn0 = u0:0 sig0\n\
\n\
block0:\n\
\x20   v0 = iconst.i64 0\n\
\x20   v1 = iconst.i64 1\n\
\x20   v2 = iconst.i64 2\n\
\x20   v3 = iconst.i64 3\n\
\x20   v4 = iconst.i64 4\n\
\x20   v5 = iconst.i64 5\n\
\x20   v6 = iconst.i64 6\n\
\x20   v7 = call fn0(v0, v1, v2, v3, v4, v5, v6)\n\
\x20   return v7\n\
}\n\
");
}

#[test]
fn a_slice_is_reserved_and_read() {
    let e = call(u64_(), "get", vec![call(i64_slice(), "alloca", vec![number(4)]), number(2)]);
    assert_eq!(listing(vec![], u64_(), e), "\
function u0:0() -> i64 system_v {\n\
\x20   ss0 = explicit_slot 512\n\
\x20   ss1 = explicit_slot 16\n\
\n\
block0:\n\
\x20   v0 = iconst.i64 4\n\
\x20   v1 = imul_imm v0, 8\n\
\x20   v2 = icmp_imm ule v1, 512\n\
\x20   trapz v2, stk_ovf\n\
\x20   v3 = stack_addr.i64 ss0\n\
\x20   stack_store v0, ss1\n\
\x20   stack_store v3, ss1+8\n\
\x20   v4 = stack_addr.i64 ss1\n\
\x20   v5 = iconst.i64 2\n\
\x20   v6 = load.i64 v4+8\n\
\x20   v7 = imul_imm v5, 8\n\
\x20   v8 = iadd v6, v7\n\
\x20   v9 = load.i64 v8\n\
\x20   return v9\n\
}\n\
");
}

#[test]
fn a_slice_is_written() {
    let e = SExpr::Assign {
        meta: meta(u64_()),
        lvalue: LValue::Get(u64_(), Box::new(LValue::Symbol("s")), Box::new(number(3))),
        value: Box::new(SExpr::Attribute {
            meta: meta(u64_()),
            top: Box::new(SExpr::Symbol { meta: meta(i64_slice()), value: "s" }),
            attrs: vec!["len"],
        }),
    };
    assert_eq!(listing(vec![("s", i64_slice())], u64_(), e), "\
function u0:0(i64) -> i64 system_v {\n\
block0(v0: i64):\n\
\x20   v1 = load.i64 v0\n\
\x20   v2 = iconst.i64 3\n\
\x20   v3 = imul_imm v2, 8\n\
\x20   v4 = load.i64 v0+8\n\
\x20   v5 = iadd v4, v3\n\
\x20   store v1, v5\n\
\x20   return v1\n\
}\n\
");
}

#[test]
fn instructions_go_by_the_type_of_the_call() {
    let signed = || Type::Int(true, 64);
    let cases = vec![
        (u64_(), "+", "iadd"),
        (u64_(), "-", "isub"),
        (u64_(), "*", "imul"),
        (u64_(), "/", "udiv"),
        (signed(), "/", "sdiv"),
        (u64_(), "%", "urem"),
        (signed(), "%", "srem"),
        (u64_(), "&", "band"),
        (u64_(), "|", "bor"),
        (u64_(), "^", "bxor"),
        (u64_(), "<<", "ishl"),
        (u64_(), ">>", "ushr"),
    ];
    for (t, op, instruction) in cases {
        let l = listing(
            vec![("x", u64_()), ("y", u64_())],
            u64_(),
            call(t, op, vec![name("x"), name("y")]),
        );
        assert!(l.contains(&format!("v2 = {} v0, v1\n", instruction)));
    }
    for (op, instruction) in [("+", "fadd"), ("-", "fsub"), ("*", "fmul"), ("/", "fdiv")] {
        let l = listing(
            vec![("x", Type::F32), ("y", Type::F32)],
            Type::F32,
            call(Type::F32, op, vec![name("x"), name("y")]),
        );
        assert!(l.contains(&format!("v2 = {} v0, v1\n", instruction)));
    }
    let l = listing(
        vec![("x", Type::F64), ("y", Type::F64)],
        Type::Int(false, 1),
        call(Type::F64, "<", vec![name("x"), name("y")]),
    );
    assert!(l.contains("v2 = fcmp lt v0, v1\n"));
}

#[test]
fn constants_are_of_their_types() {
    let value = FloatBits { single: 1.5f32.to_bits(), double: 2.5f64.to_bits() };
    let float = |t| SExpr::Float { meta: meta(t), value };
    assert!(listing(vec![], Type::F32, float(Type::F32)).contains("v0 = f32const 0x1.8"));
    assert!(listing(vec![], Type::F64, float(Type::F64)).contains("v0 = f64const 0x1.4"));
    assert!(listing(vec![], Type::Int(false, 1), flag(1)).contains("v0 = bconst.b1 true"));
    for width in [8, 16, 32, 64] {
        let t = || Type::Int(false, width);
        let e = SExpr::Int { meta: meta(t()), value: 5 };
        assert!(listing(vec![], t(), e).contains(&format!("v0 = iconst.i{} 5", width)));
    }
}

#[test]
fn a_function_that_is_defined_here_is_near() {
    let t = || function(vec![], u64_());
    let define = |name, expr| SExpr::FuncDef {
        meta: meta(unit()),
        name,
        ret_type: u64_(),
        args: vec![],
        expr: Box::new(expr),
    };
    let caller = || define("f", call_typed("g", t(), vec![]));
    let mut g = Generator::try_default().unwrap();
    g.compile(vec![define("g", number(1)), caller()]).unwrap();
    assert!(g.take_listings()[1].contains("fn0 = colocated u0:0 sig0"));
    let mut g = Generator::try_default().unwrap();
    g.compile(vec![caller(), define("g", number(1))]).unwrap();
    assert!(g.take_listings()[0].contains("fn0 = u0:0 sig0"));
}
