use atom_lang::atom::{Atom, AtomError, AtomRef};
use atom_lang::compiler::{number_literals, program_is_covered, Compiler, NumberInfo};
use atom_lang::env::Env;
use atom_lang::parser::Program;

fn table(prog: &Program) -> Vec<NumberInfo> {
    number_literals(&prog.nodes)
        .into_iter()
        .map(|literal| {
            let value: f64 = literal.parse().unwrap();
            NumberInfo { literal, bits: value.to_bits(), key: value.to_string() }
        })
        .collect()
}

fn compile(src: &str) -> Result<Env, AtomError> {
    let prog = Program::parse(src).unwrap();
    let nums = table(&prog);
    assert!(program_is_covered(&nums, &prog.nodes));
    Compiler::new().compile(&prog.nodes, &nums)
}

fn blob(env: &Env, name: &str) -> Vec<u8> {
    match env.get(name).map(|a: &AtomRef| &**a) {
        Some(Atom::Blob(b)) => b.clone(),
        other => panic!("no blob under {}: {:?}", name, other),
    }
}

#[test]
fn loose_code_becomes_main() {
    let env = compile("1 2 +").unwrap();
    assert_eq!(blob(&env, "main"), vec![0, 1, 0, b'1', 0, 1, 0, b'2', 1]);
    assert!(matches!(env.get("1").map(|a| &**a), Some(Atom::Num(b)) if f64::from_bits(*b) == 1.0));
}

#[test]
fn definitions_are_filed_by_name() {
    let env = compile("$sq [dup *]").unwrap();
    assert_eq!(blob(&env, "sq"), vec![28, 3]);
    assert!(env.get("main").is_none());
    assert_eq!(env.len(), 1);
}

#[test]
fn number_keys_use_the_float_form() {
    let env = compile("2.50 out").unwrap();
    assert!(env.contains_key("2.5"));
    assert_eq!(blob(&env, "main"), vec![0, 3, 0, b'2', b'.', b'5', 11]);
}

#[test]
fn nil_is_filed_under_nil() {
    let env = compile("nil").unwrap();
    assert!(matches!(env.get("nil").map(|a| &**a), Some(Atom::Nil)));
    assert_eq!(blob(&env, "main"), vec![0, 3, 0, b'n', b'i', b'l']);
}

#[test]
fn other_atoms_get_numbered_names() {
    let env = compile("\"a\" \"b\"").unwrap();
    assert!(matches!(env.get("$0").map(|a| &**a), Some(Atom::Str(s)) if s == "a"));
    assert!(matches!(env.get("$1").map(|a| &**a), Some(Atom::Str(s)) if s == "b"));
}

#[test]
fn lists_become_pairs() {
    let env = compile("(1 2)").unwrap();
    match env.get("$0").map(|a| &**a) {
        Some(Atom::Cons(h, t)) => {
            assert!(matches!(&**h, Atom::Num(b) if f64::from_bits(*b) == 1.0));
            match &**t {
                Atom::Cons(h2, t2) => {
                    assert!(matches!(&**h2, Atom::Num(b) if f64::from_bits(*b) == 2.0));
                    assert!(matches!(&**t2, Atom::Nil));
                }
                other => panic!("unexpected {:?}", other),
            }
        }
        other => panic!("unexpected {:?}", other),
    }
}

#[test]
fn variables_use_the_return_stack() {
    let env = compile("5 >x <x").unwrap();
    assert_eq!(blob(&env, "main"), vec![0, 1, 0, b'5', 24, 1, 0, 25, 0, 0]);
}

#[test]
fn block_variables_are_dropped_at_the_end() {
    let env = compile("$f [>a >b <a <b]").unwrap();
    assert_eq!(blob(&env, "f"), vec![24, 1, 0, 24, 1, 0, 25, 1, 0, 25, 0, 0, 26, 2, 0]);
}

#[test]
fn outer_variables_are_reached_from_blocks() {
    let env = compile(">x [<x]").unwrap();
    assert_eq!(blob(&env, "$0"), vec![25, 0, 0]);
}

#[test]
fn if_pushes_both_branches() {
    let env = compile("if [1] else [2]").unwrap();
    assert_eq!(blob(&env, "main"), vec![0, 2, 0, b'$', b'0', 0, 2, 0, b'$', b'1', 19]);
}

#[test]
fn word_refs_push_by_name() {
    let env = compile("#w").unwrap();
    assert_eq!(blob(&env, "main"), vec![0, 1, 0, b'w']);
}

#[test]
fn unbound_variable_is_an_error() {
    match compile("<y") {
        Err(AtomError::UnboundVariable(name)) => assert_eq!(name, "y"),
        other => panic!("unexpected {:?}", other.map(|e| e.len())),
    }
}

#[test]
fn unmappable_definition_body_is_an_error() {
    assert!(matches!(compile("$x dup"), Err(AtomError::UnmappableNode)));
}

#[test]
fn uncovered_numbers_are_detected() {
    let prog = Program::parse("1 2").unwrap();
    let partial = vec![NumberInfo { literal: "1".to_string(), bits: 1.0f64.to_bits(), key: "1".to_string() }];
    assert!(!program_is_covered(&partial, &prog.nodes));
    assert_eq!(number_literals(&prog.nodes), vec!["1".to_string(), "2".to_string()]);
}
