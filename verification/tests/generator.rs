use amy_backend::ast::{Meta, SExpr, Type};
use amy_backend::generator::{Error, Generator};
use amy_backend::module_log::ModuleFailure;

fn u64_() -> Type<'static> {
    Type::Int(false, 64)
}

fn meta<'a>(type_: Type<'a>) -> Meta<'a> {
    Meta { type_ }
}

fn number<'a>(value: u64) -> SExpr<'a> {
    SExpr::Int { meta: meta(u64_()), value }
}

fn name<'a>(value: &'a str) -> SExpr<'a> {
    SExpr::Symbol { meta: meta(u64_()), value }
}

fn text<'a>(value: &'a str) -> SExpr<'a> {
    SExpr::Str { meta: meta(Type::Slice(false, Box::new(Type::Int(false, 8)))), value }
}

fn call<'a>(func: &'a str, type_: Type<'a>, values: Vec<SExpr<'a>>) -> SExpr<'a> {
    SExpr::FuncCall {
        meta: meta(u64_()),
        func: Box::new(SExpr::Symbol { meta: meta(type_), value: func }),
        values,
    }
}

fn function<'a>(args: Vec<Type<'a>>) -> Type<'a> {
    Type::Function(args, Box::new(u64_()))
}

fn define<'a>(name: &'a str, args: Vec<(&'a str, Type<'a>)>, expr: SExpr<'a>) -> SExpr<'a> {
    SExpr::FuncDef {
        meta: meta(Type::Tuple(vec![])),
        name,
        ret_type: u64_(),
        args,
        expr: Box::new(expr),
    }
}

fn constant<'a>(name: &'a str, value: u64) -> SExpr<'a> {
    define(name, vec![], number(value))
}

fn adder<'a>() -> SExpr<'a> {
    define(
        "add",
        vec![("x", u64_()), ("y", u64_())],
        call("+", u64_(), vec![name("x"), name("y")]),
    )
}

fn contains(bytes: &[u8], part: &str) -> bool {
    bytes.windows(part.len()).any(|w| w == part.as_bytes())
}

/// The symbols of an ELF file that are named and not defined in it.
fn undefined_symbols(bytes: &[u8]) -> usize {
    let word = |at: usize, n: usize| {
        (0..n).fold(0usize, |v, i| v | (bytes[at + i] as usize) << (8 * i))
    };
    let (sections, size, count) = (word(0x28, 8), word(0x3a, 2), word(0x3c, 2));
    let mut undefined = 0;
    for i in 0..count {
        let header = sections + i * size;
        if word(header + 4, 4) == 2 {
            let (at, len) = (word(header + 0x18, 8), word(header + 0x20, 8));
            for symbol in (at..at + len).step_by(24) {
                if word(symbol, 4) != 0 && word(symbol + 6, 2) == 0 {
                    undefined += 1;
                }
            }
        }
    }
    undefined
}

fn refused(sexprs: Vec<SExpr<'_>>) -> (Error, Generator) {
    let mut g = Generator::try_default().unwrap();
    for e in &sexprs {
        assert!(Generator::can_compile(e));
    }
    (g.compile(sexprs).unwrap_err(), g)
}

#[test]
fn a_constant_function_becomes_an_object_file() {
    let mut g = Generator::try_default().unwrap();
    assert_eq!(g.compile(vec![constant("f", 7)]), Ok(()));
    assert_eq!(
        g.take_listings(),
        vec!["function u0:0() -> i64 system_v {\nblock0:\n    v0 = iconst.i64 7\n    return v0\n}\n"]
    );
    assert_eq!(g.take_listings(), Vec::<String>::new());
    let bytes = g.emit_object().unwrap();
    assert_eq!(&bytes[0..4], &[0x7f, b'E', b'L', b'F']);
    assert!(contains(&bytes, "amy_f@:u64"));
    assert!(contains(&bytes, "x86_64"));
}

#[test]
fn nothing_is_compiled_to_an_object_file_without_functions() {
    let mut g = Generator::try_default().unwrap();
    assert_eq!(g.compile(vec![]), Ok(()));
    let bytes = g.emit_object().unwrap();
    assert_eq!(&bytes[0..4], &[0x7f, b'E', b'L', b'F']);
    assert!(!contains(&bytes, "amy_"));
}

#[test]
fn parameters_are_added() {
    let mut g = Generator::try_default().unwrap();
    g.compile(vec![adder()]).unwrap();
    let listing = g.take_listings().remove(0);
    println!("{}", listing);
    assert!(listing.starts_with("function u0:0(i64, i64) -> i64 system_v {\n"));
    assert!(listing.contains("v2 = iadd v0, v1\n"));
    assert!(listing.contains("return v2\n"));
    assert!(contains(&g.emit_object().unwrap(), "amy_add@u64,u64:u64"));
}

#[test]
fn other_expressions_and_generic_definitions_are_skipped() {
    let generic = |args, ret_type| SExpr::FuncDef {
        meta: meta(Type::Tuple(vec![])),
        name: "g",
        ret_type,
        args,
        expr: Box::new(SExpr::Nil { meta: meta(Type::Struct("S", vec![])) }),
    };
    let skipped = || {
        vec![
            number(1),
            generic(vec![("x", Type::Generic("T"))], u64_()),
            generic(vec![], Type::Pointer(false, Box::new(Type::Generic("T")))),
        ]
    };
    for e in &skipped() {
        assert!(Generator::can_compile(e));
    }
    let mut g = Generator::try_default().unwrap();
    assert_eq!(g.compile(skipped()), Ok(()));
    assert_eq!(g.take_listings().len(), 0);
    let empty = Generator::try_default().unwrap();
    assert_eq!(g.emit_object(), empty.emit_object());
    let mut with = Generator::try_default().unwrap();
    let mut all = vec![constant("f", 1)];
    all.extend(skipped());
    all.push(constant("h", 2));
    with.compile(all).unwrap();
    let mut without = Generator::try_default().unwrap();
    without.compile(vec![constant("f", 1), constant("h", 2)]).unwrap();
    assert_eq!(with.take_listings(), without.take_listings());
    assert_eq!(with.emit_object(), without.emit_object());
}

#[test]
fn the_same_definitions_make_the_same_object_file() {
    let make = || {
        let mut g = Generator::try_default().unwrap();
        let t = function(vec![u64_(), u64_()]);
        let caller = define("h", vec![], call("add", t, vec![number(1), number(2)]));
        let body = SExpr::Sequence { meta: meta(u64_()), values: vec![text("bytes"), number(0)] };
        g.compile(vec![caller, adder(), define("main", vec![], body)]).unwrap();
        (g.take_listings(), g.emit_object().unwrap())
    };
    assert_eq!(make(), make());
}

#[test]
fn what_is_only_called_stays_an_import() {
    let caller = || define("h", vec![], call("f", function(vec![]), vec![]));
    let sizes: Vec<usize> = vec![vec![caller()], vec![caller(), constant("f", 1)]]
        .into_iter()
        .map(|sexprs| {
            let mut g = Generator::try_default().unwrap();
            g.compile(sexprs).unwrap();
            let bytes = g.emit_object().unwrap();
            undefined_symbols(&bytes)
        })
        .collect();
    assert_eq!(sizes, vec![1, 0]);
}

#[test]
fn definitions_that_clash_do_so_in_either_order() {
    let body = |s| SExpr::Sequence { meta: meta(u64_()), values: vec![text(s), number(0)] };
    let with_text = |name, s| define(name, vec![], body(s));
    let calls_main = || define("f", vec![], call("main", function(vec![u64_()]), vec![number(1)]));
    let refuses = |sexprs| refused(sexprs).0;
    assert_eq!(
        refuses(vec![with_text("f", "one"), with_text("g", "two")]),
        refuses(vec![with_text("g", "two"), with_text("f", "one")])
    );
    assert_eq!(
        refuses(vec![calls_main(), constant("main", 0)]),
        refuses(vec![constant("main", 0), calls_main()])
    );
}

#[test]
fn compiling_in_parts_is_compiling_at_once() {
    let caller = || {
        let t = function(vec![u64_(), u64_()]);
        define("h", vec![], call("add", t, vec![number(1), number(2)]))
    };
    let mut parts = Generator::try_default().unwrap();
    parts.compile(vec![adder()]).unwrap();
    parts.compile(vec![caller(), constant("main", 3)]).unwrap();
    let mut once = Generator::try_default().unwrap();
    once.compile(vec![adder(), caller(), constant("main", 3)]).unwrap();
    assert_eq!(parts.take_listings(), once.take_listings());
    assert_eq!(parts.emit_object(), once.emit_object());
}

#[test]
fn a_function_can_call_one_that_comes_before_or_after_it() {
    let caller = || define("h", vec![], call("f", function(vec![]), vec![]));
    for sexprs in vec![
        vec![caller(), constant("f", 1)],
        vec![constant("f", 1), caller()],
        vec![caller()],
    ] {
        let mut g = Generator::try_default().unwrap();
        assert_eq!(g.compile(sexprs), Ok(()));
        let bytes = g.emit_object().unwrap();
        assert!(contains(&bytes, "amy_h@:u64"));
        assert!(contains(&bytes, "amy_f@:u64"));
    }
}

#[test]
fn texts_are_in_the_object_file() {
    let mut g = Generator::try_default().unwrap();
    let body = SExpr::Sequence { meta: meta(u64_()), values: vec![text("some bytes"), number(0)] };
    assert_eq!(g.compile(vec![define("main", vec![], body)]), Ok(()));
    let bytes = g.emit_object().unwrap();
    assert!(contains(&bytes, "some bytes"));
    assert!(contains(&bytes, "main"));
    assert!(!contains(&bytes, "amy_"));
}

#[test]
fn texts_of_two_functions_share_a_number() {
    let body = |s| SExpr::Sequence { meta: meta(u64_()), values: vec![text(s), number(0)] };
    let (e, mut g) = refused(vec![
        define("f", vec![], body("one")),
        define("g", vec![], body("two")),
    ]);
    assert_eq!(e, Error::Module(ModuleFailure::DuplicateDefinition));
    assert_eq!(g.take_listings().len(), 1);
    let bytes = g.emit_object().unwrap();
    assert!(contains(&bytes, "one"));
    assert!(!contains(&bytes, "two"));
}

#[test]
fn a_symbol_is_defined_once() {
    let (e, mut g) = refused(vec![constant("f", 1), constant("f", 2), constant("h", 3)]);
    assert_eq!(e, Error::Module(ModuleFailure::DuplicateDefinition));
    assert_eq!(g.take_listings().len(), 2);
    assert_eq!(g.compile(vec![constant("h", 3)]), Ok(()));
    assert!(contains(&g.emit_object().unwrap(), "amy_h@:u64"));
}

#[test]
fn a_symbol_has_one_signature() {
    let (e, mut g) = refused(vec![
        define("f", vec![], call("main", function(vec![u64_()]), vec![number(1)])),
        constant("main", 0),
    ]);
    assert_eq!(e, Error::Module(ModuleFailure::IncompatibleSignature));
    assert_eq!(g.take_listings().len(), 2);
    let (e, mut g) = refused(vec![
        constant("main", 0),
        define("f", vec![], call("main", function(vec![u64_()]), vec![number(1)])),
    ]);
    assert_eq!(e, Error::Module(ModuleFailure::IncompatibleSignature));
    assert_eq!(g.take_listings().len(), 1);
}

#[test]
fn a_symbol_holds_no_null() {
    let (e, _) = refused(vec![constant("f\0", 1)]);
    assert_eq!(e, Error::Module(ModuleFailure::Backend));
}

#[test]
fn operands_of_different_types_do_not_compile() {
    let narrow = SExpr::Int { meta: meta(Type::Int(false, 32)), value: 1 };
    let (e, mut g) = refused(vec![define(
        "f",
        vec![],
        call("+", u64_(), vec![number(1), narrow]),
    )]);
    assert_eq!(e, Error::Module(ModuleFailure::Compilation));
    assert_eq!(g.take_listings().len(), 1);
    assert_eq!(g.compile(vec![constant("g", 1)]), Ok(()));
}

#[test]
fn what_has_no_translation_is_found_out() {
    let bad = vec![
        SExpr::Int { meta: meta(Type::Int(false, 24)), value: 1 },
        SExpr::Sequence { meta: meta(u64_()), values: vec![] },
        name("unknown"),
        SExpr::Break { meta: meta(u64_()), value: None },
        call("+", u64_(), vec![number(1)]),
        call("unknown", u64_(), vec![]),
        call("cast", u64_(), vec![number(1)]),
        SExpr::StructSet { meta: meta(u64_()), name: "S", values: vec![] },
        constant("inner", 1),
        SExpr::Declare {
            meta: meta(Type::F32),
            mutable: false,
            variable: "x",
            value: Box::new(number(1)),
        },
    ];
    for e in bad {
        assert!(!Generator::can_compile(&define("f", vec![], e)));
    }
    for op in ["&", "|", "^"] {
        for single in [true, false] {
            let t = || if single { Type::F32 } else { Type::F64 };
            let x = || SExpr::Symbol { meta: meta(t()), value: "x" };
            let e = SExpr::FuncDef {
                meta: meta(Type::Tuple(vec![])),
                name: "f",
                ret_type: t(),
                args: vec![("x", t())],
                expr: Box::new(SExpr::FuncCall {
                    meta: meta(t()),
                    func: Box::new(name(op)),
                    values: vec![x(), x()],
                }),
            };
            assert!(!Generator::can_compile(&e));
        }
    }
    let narrow = || SExpr::Int { meta: meta(Type::Int(false, 32)), value: 1 };
    let get = |slice| call("get", u64_(), vec![slice, number(0)]);
    assert!(!Generator::can_compile(&define("f", vec![], get(narrow()))));
    assert!(Generator::can_compile(&define("f", vec![], get(number(1)))));
    let len = |top| SExpr::Attribute { meta: meta(u64_()), top: Box::new(top), attrs: vec!["len"] };
    assert!(!Generator::can_compile(&define("f", vec![], len(number(1)))));
    assert!(Generator::can_compile(&define("f", vec![], len(text("a")))));
    assert!(!Generator::can_compile(&define("f", vec![("s", Type::Struct("S", vec![]))], number(1))));
    assert!(Generator::can_compile(&constant("f", 1)));
    assert!(Generator::can_compile(&adder()));
}

#[test]
fn a_function_can_be_too_large() {
    let long = |n: usize| SExpr::Sequence {
        meta: meta(u64_()),
        values: (0..n).map(|_| number(1)).collect(),
    };
    assert!(Generator::can_compile(&define("f", vec![], long(1000))));
    assert!(!Generator::can_compile(&define("f", vec![], long(300_000))));
}

#[test]
fn a_function_of_one_block_can_have_many_variables() {
    let declare = |i: usize| SExpr::Declare {
        meta: meta(u64_()),
        mutable: false,
        variable: "x",
        value: Box::new(number(i as u64)),
    };
    let body = |n: usize| SExpr::Sequence {
        meta: meta(u64_()),
        values: (0..n).map(declare).chain(vec![name("x")]).collect(),
    };
    let many = define("f", vec![], body(70_000));
    assert!(Generator::can_compile(&many));
    let mut g = Generator::try_default().unwrap();
    assert_eq!(g.compile(vec![many]), Ok(()));
    assert!(g.take_listings().remove(0).contains("return v69999\n"));
}
