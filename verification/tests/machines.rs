use amy_backend::ast::{Meta, SExpr, Type};
use amy_backend::generator::{Error, Generator};
use cranelift::prelude::isa;
use std::str::FromStr;
use target_lexicon::Triple;

fn constant<'a>(name: &'a str, value: u64) -> SExpr<'a> {
    let t = || Type::Int(false, 64);
    SExpr::FuncDef {
        meta: Meta { type_: Type::Tuple(vec![]) },
        name,
        ret_type: t(),
        args: vec![],
        expr: Box::new(SExpr::Int { meta: Meta { type_: t() }, value }),
    }
}

fn generator(triple: &str) -> Result<Generator, Error> {
    Generator::from_isa(isa::lookup(Triple::from_str(triple).unwrap()))
}

fn listing(mut g: Generator) -> String {
    g.compile(vec![constant("f", 7)]).unwrap();
    g.take_listings().remove(0)
}

#[test]
fn the_usual_machine_writes_elf_and_calls_the_system_v_way() {
    let l = listing(Generator::try_default().unwrap());
    assert!(l.starts_with("function u0:0() -> i64 system_v {\n"));
    let mut g = generator("x86_64-elf").unwrap();
    g.compile(vec![constant("f", 7)]).unwrap();
    let mut h = Generator::try_default().unwrap();
    h.compile(vec![constant("f", 7)]).unwrap();
    let bytes = g.emit_object().unwrap();
    assert_eq!(&bytes[0..4], &[0x7f, b'E', b'L', b'F']);
    assert_eq!(Ok(bytes), h.emit_object());
}

#[test]
fn a_machine_without_code_generator_is_refused() {
    assert_eq!(generator("riscv64gc-unknown-linux-gnu").err(), Some(Error::Isa));
    assert_eq!(generator("wasm32-unknown-unknown").err(), Some(Error::Isa));
}
