use atom_lang::compiler::{number_literals, NumberInfo};
use atom_lang::lexer::Span;
use atom_lang::parser::{Node, Program, Spanned};
use atom_lang::show::DisplayWithSrc;

fn table(prog: &Program) -> Vec<NumberInfo> {
    number_literals(&prog.nodes)
        .into_iter()
        .map(|literal| {
            let value: f64 = literal.parse().unwrap();
            NumberInfo { literal, bits: value.to_bits(), key: value.to_string() }
        })
        .collect()
}

fn show(src: &str) -> String {
    let p = Program::parse(src).unwrap();
    let numbers = table(&p);
    p.display(src, &numbers).to_string()
}

#[test]
fn flat_program() {
    assert_eq!(show("1 dup"), "Program [\n  @1:1 Number(1)\n  @1:3 Dup\n]");
}

#[test]
fn numbers_print_as_floats() {
    assert_eq!(show("1.50 1e3"), "Program [\n  @1:1 Number(1.5)\n  @1:6 Number(1000)\n]");
}

#[test]
fn builtins_print_their_names() {
    assert_eq!(
        show("string ifte ::"),
        "Program [\n  @1:1 StringCast\n  @1:8 IfThenElse\n  @1:13 Cons\n]"
    );
}

#[test]
fn nested_block() {
    assert_eq!(show("[1]"), "Program [\n  @1:1 Block [\n    @1:2 Number(1)\n  ]\n]");
}

#[test]
fn strings_names_and_lists() {
    assert_eq!(
        show("\"a\\\"b\" #w >x <y (nil)"),
        "Program [\n  @1:1 String(\"a\\\"b\")\n  @1:8 WordRef(w)\n  @1:11 BindVar(<x)\n  @1:14 FetchVar($y)\n  @1:17 List [\n    @1:18 Nil\n  ]\n]"
    );
}

#[test]
fn definitions_and_conditionals() {
    assert_eq!(
        show("$d 1\nif 2 else 3"),
        "Program [\n  @1:1 Define(d) {\n    body: @1:4 Number(1)\n  }\n  @2:1 If {\n    then: @2:4 Number(2)\n    else: @2:11 Number(3)\n  }\n]"
    );
}

#[test]
fn spanned_node_alone() {
    let src = "  7";
    let numbers = vec![NumberInfo { literal: "7".to_string(), bits: 7.0f64.to_bits(), key: "7".to_string() }];
    let s = Spanned { node: Node::Number("7".to_string()), span: Span { start: 2, end: 3 } };
    let mut out = String::new();
    s.fmt_with_src(&mut out, src, &numbers, 0);
    assert_eq!(out, "@1:3 Number(7)");
}
