use amy_backend::ast::{FloatBits, LValue, Meta, SExpr, Type};
use amy_backend::generator::Generator;
use amy_backend::ir::IrType;
use amy_backend::step::{BinaryOp, IntCond, Step};

fn u64_() -> Type<'static> {
    Type::Int(false, 64)
}

fn meta<'a>(type_: Type<'a>) -> Meta<'a> {
    Meta { type_ }
}

fn number<'a>(value: u64) -> SExpr<'a> {
    SExpr::Int { meta: meta(u64_()), value }
}

fn flag<'a>(value: u64) -> SExpr<'a> {
    SExpr::Int { meta: meta(Type::Int(false, 1)), value }
}

fn name<'a>(value: &'a str) -> SExpr<'a> {
    SExpr::Symbol { meta: meta(u64_()), value }
}

fn function<'a>(args: Vec<Type<'a>>, ret: Type<'a>) -> Type<'a> {
    Type::Function(args, Box::new(ret))
}

fn typed_name<'a>(value: &'a str, type_: Type<'a>) -> SExpr<'a> {
    SExpr::Symbol { meta: meta(type_), value }
}

fn call<'a>(type_: Type<'a>, func: SExpr<'a>, values: Vec<SExpr<'a>>) -> SExpr<'a> {
    SExpr::FuncCall { meta: meta(type_), func: Box::new(func), values }
}

fn sequence<'a>(values: Vec<SExpr<'a>>) -> SExpr<'a> {
    SExpr::Sequence { meta: meta(u64_()), values }
}

fn declare<'a>(variable: &'a str, value: SExpr<'a>) -> SExpr<'a> {
    SExpr::Declare { meta: meta(u64_()), mutable: true, variable, value: Box::new(value) }
}

fn assign<'a>(lvalue: LValue<'a>, value: SExpr<'a>) -> SExpr<'a> {
    SExpr::Assign { meta: meta(u64_()), lvalue, value: Box::new(value) }
}

/// The steps of a function that takes nothing, without those that every function
/// starts and ends with; the first of them is at place 4.
fn plan(expr: &SExpr<'_>) -> (Vec<Step>, usize) {
    let mut steps = Generator::translate_function(&vec![], &u64_(), expr);
    assert_eq!(steps.pop(), Some(Step::Finalize));
    assert_eq!(steps.pop(), Some(Step::SealAllBlocks));
    let value = match steps.pop() {
        Some(Step::Return(v)) => v,
        other => panic!("{:?}", other),
    };
    let rest = steps.split_off(4);
    assert_eq!(
        steps,
        vec![
            Step::Begin(vec![], IrType::I64),
            Step::CreateBlock,
            Step::AppendFunctionParams(1),
            Step::SwitchToBlock(1),
        ]
    );
    (rest, value)
}

#[test]
fn parameters_become_variables() {
    let args = vec![("x", u64_()), ("y", Type::F32)];
    let steps = Generator::translate_function(&args, &u64_(), &name("x"));
    assert_eq!(
        steps,
        vec![
            Step::Begin(vec![IrType::I64, IrType::F32], IrType::I64),
            Step::CreateBlock,
            Step::AppendFunctionParams(1),
            Step::SwitchToBlock(1),
            Step::DeclareVar(0, IrType::I64),
            Step::BlockParam(1, 0),
            Step::DefVar(0, 5),
            Step::DeclareVar(1, IrType::F32),
            Step::BlockParam(1, 1),
            Step::DefVar(1, 8),
            Step::UseVar(0),
            Step::Return(10),
            Step::SealAllBlocks,
            Step::Finalize,
        ]
    );
}

#[test]
fn a_later_parameter_of_a_name_wins() {
    let args = vec![("x", u64_()), ("x", u64_())];
    let steps = Generator::translate_function(&args, &u64_(), &name("x"));
    assert_eq!(steps[10], Step::UseVar(1));
}

#[test]
fn literals_are_constants() {
    assert_eq!(plan(&number(7)), (vec![Step::Iconst(IrType::I64, 7)], 4));
    assert_eq!(plan(&number(u64::MAX)), (vec![Step::Iconst(IrType::I64, -1)], 4));
    assert_eq!(plan(&flag(0)), (vec![Step::Bconst(IrType::B1, false)], 4));
    assert_eq!(plan(&flag(2)), (vec![Step::Bconst(IrType::B1, true)], 4));
    let value = FloatBits { single: 1.5f32.to_bits(), double: 1.5f64.to_bits() };
    assert_eq!(
        plan(&SExpr::Float { meta: meta(Type::F32), value }),
        (vec![Step::F32const(0x3fc0_0000)], 4)
    );
    assert_eq!(
        plan(&SExpr::Float { meta: meta(Type::F64), value }),
        (vec![Step::F64const(0x3ff8_0000_0000_0000)], 4)
    );
    assert_eq!(
        plan(&SExpr::Nil { meta: meta(Type::Tuple(vec![])) }),
        (vec![Step::Bconst(IrType::B1, false)], 4)
    );
}

#[test]
fn a_type_beside_an_expression_changes_nothing() {
    let e = SExpr::Type { meta: meta(u64_()), value: Box::new(number(3)) };
    assert_eq!(plan(&e), plan(&number(3)));
}

#[test]
fn texts_are_data_behind_slices() {
    let text = |value| SExpr::Str {
        meta: meta(Type::Slice(false, Box::new(Type::Int(false, 8)))),
        value,
    };
    let e = sequence(vec![text("hé"), declare("x", number(1)), text("")]);
    assert_eq!(
        plan(&e),
        (
            vec![
                Step::DeclareData("0".to_string()),
                Step::DefineData(4, vec![b'h', 0xc3, 0xa9]),
                Step::ImportData(4),
                Step::Iconst(IrType::I64, 3),
                Step::GlobalValue(IrType::I64, 6),
                Step::CreateStackSlot(16),
                Step::StackStore(7, 9, 0),
                Step::StackStore(8, 9, 8),
                Step::StackAddr(IrType::I64, 9, 0),
                Step::DeclareVar(1, IrType::I64),
                Step::Iconst(IrType::I64, 1),
                Step::DefVar(1, 14),
                Step::UseVar(1),
                Step::DeclareData("2".to_string()),
                Step::DefineData(17, vec![]),
                Step::ImportData(17),
                Step::Iconst(IrType::I64, 0),
                Step::GlobalValue(IrType::I64, 19),
                Step::CreateStackSlot(16),
                Step::StackStore(20, 22, 0),
                Step::StackStore(21, 22, 8),
                Step::StackAddr(IrType::I64, 22, 0),
            ],
            25
        )
    );
}

#[test]
fn inner_scopes_hide_outer_names() {
    let e = sequence(vec![
        declare("x", number(1)),
        sequence(vec![declare("x", number(2)), name("x")]),
        name("x"),
    ]);
    let (steps, value) = plan(&e);
    assert_eq!(steps[8], Step::UseVar(1));
    assert_eq!(steps[9], Step::UseVar(0));
    assert_eq!(steps.len(), 10);
    assert_eq!(value, 13);
}

#[test]
fn a_variable_is_not_in_scope_in_its_own_value() {
    let e = sequence(vec![declare("x", number(1)), declare("x", name("x")), name("x")]);
    assert_eq!(
        plan(&e).0,
        vec![
            Step::DeclareVar(0, IrType::I64),
            Step::Iconst(IrType::I64, 1),
            Step::DefVar(0, 5),
            Step::UseVar(0),
            Step::DeclareVar(1, IrType::I64),
            Step::UseVar(0),
            Step::DefVar(1, 9),
            Step::UseVar(1),
            Step::UseVar(1),
        ]
    );
}

#[test]
fn a_condition_branches_over_its_body() {
    let e = SExpr::Cond {
        meta: meta(u64_()),
        values: vec![(flag(1), number(10)), (flag(0), number(20))],
        elsy: Some(Box::new(number(30))),
    };
    assert_eq!(
        plan(&e),
        (
            vec![
                Step::CreateBlock,
                Step::CreateBlock,
                Step::CreateBlock,
                Step::CreateBlock,
                Step::CreateBlock,
                Step::AppendBlockParam(8, IrType::I64),
                Step::Bconst(IrType::B1, true),
                Step::Brz(10, 4),
                Step::Jump(5, None),
                Step::SwitchToBlock(5),
                Step::Iconst(IrType::I64, 10),
                Step::Jump(8, Some(14)),
                Step::SwitchToBlock(4),
                Step::Bconst(IrType::B1, false),
                Step::Brz(17, 6),
                Step::Jump(7, None),
                Step::SwitchToBlock(7),
                Step::Iconst(IrType::I64, 20),
                Step::Jump(8, Some(21)),
                Step::SwitchToBlock(6),
                Step::Iconst(IrType::I64, 30),
                Step::Jump(8, Some(24)),
                Step::SwitchToBlock(8),
                Step::BlockParam(8, 0),
            ],
            27
        )
    );
}

#[test]
fn a_condition_without_an_alternative_gives_the_empty_value() {
    let e = SExpr::Cond { meta: meta(Type::Tuple(vec![])), values: vec![], elsy: None };
    assert_eq!(
        plan(&e),
        (
            vec![
                Step::CreateBlock,
                Step::AppendBlockParam(4, IrType::B1),
                Step::Bconst(IrType::B1, false),
                Step::Jump(4, Some(6)),
                Step::SwitchToBlock(4),
                Step::BlockParam(4, 0),
            ],
            9
        )
    );
}

#[test]
fn a_break_leaves_the_innermost_loop() {
    let e = SExpr::Loop {
        meta: meta(u64_()),
        value: Box::new(SExpr::Break { meta: meta(u64_()), value: Some(Box::new(number(5))) }),
    };
    assert_eq!(
        plan(&e),
        (
            vec![
                Step::CreateBlock,
                Step::CreateBlock,
                Step::AppendBlockParam(5, IrType::I64),
                Step::Jump(4, None),
                Step::SwitchToBlock(4),
                Step::Iconst(IrType::I64, 5),
                Step::Jump(5, Some(9)),
                Step::CreateBlock,
                Step::SwitchToBlock(11),
                Step::Bconst(IrType::I64, false),
                Step::Jump(4, None),
                Step::SwitchToBlock(5),
                Step::BlockParam(5, 0),
            ],
            16
        )
    );
    let bare = SExpr::Loop {
        meta: meta(Type::Tuple(vec![])),
        value: Box::new(SExpr::Break { meta: meta(Type::Tuple(vec![])), value: None }),
    };
    let (steps, _) = plan(&bare);
    assert_eq!(steps[5], Step::Bconst(IrType::B1, false));
    assert_eq!(steps[6], Step::Jump(5, Some(9)));
}

#[test]
fn arithmetic_goes_by_the_type_of_the_call() {
    let signed = || Type::Int(true, 64);
    let cases = vec![
        ("+", u64_(), BinaryOp::Iadd),
        ("+", Type::F32, BinaryOp::Fadd),
        ("-", signed(), BinaryOp::Isub),
        ("-", Type::F64, BinaryOp::Fsub),
        ("*", u64_(), BinaryOp::Imul),
        ("*", Type::F64, BinaryOp::Fmul),
        ("/", u64_(), BinaryOp::Udiv),
        ("/", signed(), BinaryOp::Sdiv),
        ("/", Type::F32, BinaryOp::Fdiv),
        ("%", u64_(), BinaryOp::Urem),
        ("%", signed(), BinaryOp::Srem),
        ("%", Type::F32, BinaryOp::Urem),
        ("&", u64_(), BinaryOp::Band),
        ("|", u64_(), BinaryOp::Bor),
        ("^", u64_(), BinaryOp::Bxor),
        ("<<", u64_(), BinaryOp::Ishl),
        (">>", signed(), BinaryOp::Ushr),
    ];
    for (op, t, expected) in cases {
        let e = call(t, name(op), vec![number(8), number(2)]);
        assert_eq!(
            plan(&e),
            (
                vec![
                    Step::Iconst(IrType::I64, 8),
                    Step::Iconst(IrType::I64, 2),
                    Step::Binary(expected, 4, 5),
                ],
                6
            )
        );
    }
}

#[test]
fn less_goes_by_the_type_of_the_call() {
    let less = |t| call(t, name("<"), vec![number(1), number(2)]);
    assert_eq!(
        plan(&less(Type::Int(false, 1))).0[2],
        Step::CompareInt(IntCond::UnsignedLessThan, 4, 5)
    );
    assert_eq!(
        plan(&less(Type::Int(true, 64))).0[2],
        Step::CompareInt(IntCond::SignedLessThan, 4, 5)
    );
    assert_eq!(plan(&less(Type::F64)).0[2], Step::FloatLessThan(4, 5));
}

#[test]
fn a_cast_between_pointers_and_integers_is_free() {
    let pointer = || Type::Pointer(false, Box::new(u64_()));
    let e = call(pointer(), name("cast"), vec![number(8)]);
    assert_eq!(plan(&e), (vec![Step::Iconst(IrType::I64, 8)], 4));
    let back = call(u64_(), name("cast"), vec![e]);
    assert_eq!(plan(&back), (vec![Step::Iconst(IrType::I64, 8)], 4));
    let narrowed = call(Type::Int(false, 8), name("cast"), vec![number(8)]);
    assert!(!Generator::can_compile(&define(narrowed)));
    let retyped = call(pointer(), name("cast"), vec![back, number(1)]);
    assert!(Generator::can_compile(&define(retyped)));
}

fn define<'a>(expr: SExpr<'a>) -> SExpr<'a> {
    SExpr::FuncDef {
        meta: meta(Type::Tuple(vec![])),
        name: "f",
        ret_type: u64_(),
        args: vec![],
        expr: Box::new(expr),
    }
}

#[test]
fn space_is_reserved_on_the_stack() {
    let e = call(Type::Pointer(true, Box::new(Type::Int(false, 32))), name("alloca"), vec![]);
    assert_eq!(
        plan(&e),
        (vec![Step::CreateStackSlot(4), Step::StackAddr(IrType::I64, 4, 0)], 5)
    );
    let e = call(
        Type::Slice(true, Box::new(Type::Int(false, 16))),
        name("alloca"),
        vec![number(9)],
    );
    assert_eq!(
        plan(&e),
        (
            vec![
                Step::Iconst(IrType::I64, 9),
                Step::ImulImm(4, 2),
                Step::CompareIntImm(IntCond::UnsignedLessThanOrEqual, 5, 512),
                Step::TrapzStackOverflow(6),
                Step::CreateStackSlot(512),
                Step::StackAddr(IrType::I64, 8, 0),
                Step::CreateStackSlot(16),
                Step::StackStore(4, 10, 0),
                Step::StackStore(9, 10, 8),
                Step::StackAddr(IrType::I64, 10, 0),
            ],
            13
        )
    );
}

#[test]
fn an_element_is_loaded_through_the_slice() {
    let e = call(Type::Int(false, 32), name("get"), vec![number(100), number(3)]);
    assert_eq!(
        plan(&e),
        (
            vec![
                Step::Iconst(IrType::I64, 100),
                Step::Iconst(IrType::I64, 3),
                Step::Load(IrType::I64, 4, 8),
                Step::ImulImm(5, 4),
                Step::Binary(BinaryOp::Iadd, 6, 7),
                Step::Load(IrType::I32, 8, 0),
            ],
            9
        )
    );
}

#[test]
fn attributes_of_a_slice_are_loaded_from_their_offsets() {
    let attribute = |attr| SExpr::Attribute {
        meta: meta(u64_()),
        top: Box::new(SExpr::Int {
            meta: meta(Type::Slice(false, Box::new(Type::F32))),
            value: 64,
        }),
        attrs: vec![attr],
    };
    let expect = |offset| {
        (vec![Step::Iconst(IrType::I64, 64), Step::Load(IrType::I64, 4, offset)], 5)
    };
    assert_eq!(plan(&attribute("len")), expect(0));
    assert_eq!(plan(&attribute("cap")), expect(0));
    assert_eq!(plan(&attribute("ptr")), expect(8));
    assert!(!Generator::can_compile(&define(attribute("size"))));
}

#[test]
fn system_calls_go_through_a_function() {
    let e = call(u64_(), name("syscall"), vec![number(1)]);
    assert_eq!(
        plan(&e),
        (
            vec![
                Step::Iconst(IrType::I64, 1),
                Step::DeclareFunction("syscall_".to_string(), vec![IrType::I64; 7], IrType::I64),
                Step::ImportFunction(5, IrType::I64),
                Step::Call(6, vec![4]),
                Step::InstResult(7),
            ],
            8
        )
    );
}

#[test]
fn functions_are_called_by_their_symbols() {
    let t = function(vec![u64_(), Type::F32], Type::Int(true, 8));
    let value = FloatBits { single: 0, double: 0 };
    let e = call(
        u64_(),
        typed_name("g", t),
        vec![number(1), SExpr::Float { meta: meta(Type::F32), value }],
    );
    assert_eq!(
        plan(&e),
        (
            vec![
                Step::Iconst(IrType::I64, 1),
                Step::F32const(0),
                Step::DeclareFunction(
                    "amy_g@u64,f:i8".to_string(),
                    vec![IrType::I64, IrType::F32],
                    IrType::I8
                ),
                Step::ImportFunction(6, IrType::I8),
                Step::Call(7, vec![4, 5]),
                Step::InstResult(8),
            ],
            9
        )
    );
}

#[test]
fn a_function_as_a_value_is_its_address() {
    let t = function(vec![], u64_());
    assert_eq!(
        plan(&typed_name("g", t)),
        (
            vec![
                Step::DeclareFunction("amy_g@:u64".to_string(), vec![], IrType::I64),
                Step::ImportFunction(4, IrType::I64),
                Step::FuncAddr(IrType::I64, 5),
            ],
            6
        )
    );
}

#[test]
fn a_variable_is_called_by_its_address() {
    let t = || function(vec![u64_()], Type::F64);
    let e = sequence(vec![
        declare("g", number(4096)),
        call(Type::F64, typed_name("g", t()), vec![number(1)]),
    ]);
    assert_eq!(
        plan(&e).0[4..],
        [
            Step::Iconst(IrType::I64, 1),
            Step::ImportSignature(vec![IrType::I64], IrType::F64),
            Step::UseVar(0),
            Step::CallIndirect(9, 10, vec![8]),
            Step::InstResult(11),
        ]
    );
}

#[test]
fn assignments_go_to_the_variable_that_the_name_stands_for() {
    let e = sequence(vec![
        declare("x", number(1)),
        declare("y", number(2)),
        assign(LValue::Symbol("y"), number(3)),
    ]);
    assert_eq!(
        plan(&e).0[8..],
        [Step::Iconst(IrType::I64, 3), Step::DefVar(1, 12), Step::UseVar(1)]
    );
}

#[test]
fn an_assignment_to_an_unknown_name_goes_to_the_first_variable() {
    let e = sequence(vec![
        declare("x", number(1)),
        declare("y", number(2)),
        assign(LValue::Symbol("z"), number(3)),
    ]);
    assert_eq!(
        plan(&e).0[8..],
        [Step::Iconst(IrType::I64, 3), Step::DefVar(0, 12), Step::UseVar(0)]
    );
    assert!(!Generator::can_compile(&define(assign(LValue::Symbol("z"), number(3)))));
}

#[test]
fn assignments_through_pointers_are_stores() {
    let to = |lvalue| sequence(vec![declare("p", number(64)), assign(lvalue, number(3))]);
    let p = || Box::new(LValue::Symbol("p"));
    let e = to(LValue::Deref(p()));
    assert_eq!(
        plan(&e).0[4..],
        [Step::Iconst(IrType::I64, 3), Step::UseVar(0), Step::Store(8, 9, 0)]
    );
    assert_eq!(plan(&e).1, 8);
    let e = to(LValue::Deref(Box::new(LValue::Deref(p()))));
    assert_eq!(
        plan(&e).0[4..],
        [
            Step::Iconst(IrType::I64, 3),
            Step::UseVar(0),
            Step::Load(IrType::I64, 9, 0),
            Step::Store(8, 10, 0),
        ]
    );
    let e = to(LValue::Get(Type::Int(false, 16), p(), Box::new(number(5))));
    assert_eq!(
        plan(&e).0[4..],
        [
            Step::Iconst(IrType::I64, 3),
            Step::Iconst(IrType::I64, 5),
            Step::ImulImm(9, 2),
            Step::UseVar(0),
            Step::Load(IrType::I64, 11, 8),
            Step::Binary(BinaryOp::Iadd, 12, 10),
            Step::Store(8, 13, 0),
        ]
    );
    let e = to(LValue::Get(u64_(), Box::new(LValue::Deref(p())), Box::new(number(5))));
    assert_eq!(
        plan(&e).0[7..],
        [
            Step::UseVar(0),
            Step::Load(IrType::I64, 11, 0),
            Step::Load(IrType::I64, 12, 8),
            Step::Binary(BinaryOp::Iadd, 13, 10),
            Step::Store(8, 14, 0),
        ]
    );
}

#[test]
fn a_plan_only_grows() {
    let first = || declare("x", number(1));
    let (short, _) = plan(&sequence(vec![first()]));
    let sum = call(u64_(), name("+"), vec![name("x"), name("x")]);
    let (long, _) = plan(&sequence(vec![first(), sum]));
    assert_eq!(long[..short.len()], short[..]);
    assert_eq!(long.len(), short.len() + 3);
}

#[test]
fn an_element_is_written_where_it_is_read() {
    let read = call(u64_(), name("get"), vec![name("p"), number(5)]);
    let place = LValue::Get(u64_(), Box::new(LValue::Symbol("p")), Box::new(number(5)));
    let with = |e| plan(&sequence(vec![declare("p", number(100)), e])).0;
    let (read, written) = (with(read), with(assign(place, number(3))));
    assert_eq!(
        read[4..],
        [
            Step::UseVar(0),
            Step::Iconst(IrType::I64, 5),
            Step::Load(IrType::I64, 8, 8),
            Step::ImulImm(9, 8),
            Step::Binary(BinaryOp::Iadd, 10, 11),
            Step::Load(IrType::I64, 12, 0),
        ]
    );
    assert_eq!(
        written[5..],
        [
            Step::Iconst(IrType::I64, 5),
            Step::ImulImm(9, 8),
            Step::UseVar(0),
            Step::Load(IrType::I64, 11, 8),
            Step::Binary(BinaryOp::Iadd, 12, 10),
            Step::Store(8, 13, 0),
        ]
    );
}

#[test]
fn a_dereference_after_the_first_is_a_load() {
    for n in 1..5 {
        let mut place = LValue::Symbol("p");
        for _ in 0..n {
            place = LValue::Deref(Box::new(place));
        }
        let text = SExpr::Str { meta: meta(u64_()), value: "a" };
        let e = sequence(vec![declare("p", number(100)), assign(place, number(3)), text]);
        let steps = plan(&e).0;
        let loads = steps.iter().filter(|s| matches!(s, Step::Load(IrType::I64, _, 0))).count();
        assert_eq!(loads, n - 1);
        assert_eq!(steps[5], Step::UseVar(0));
        assert_eq!(steps[5 + n], Step::Store(8, 8 + n, 0));
        assert!(steps.contains(&Step::DeclareData(String::from("1"))));
    }
}
