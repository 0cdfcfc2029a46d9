use atom_lang::atom::{Atom, AtomError, AtomRef};
use atom_lang::bytecode::Writer;
use atom_lang::interpreter::Interpreter;

fn n(v: f64) -> AtomRef {
    Atom::num(v.to_bits())
}

#[test]
fn empty_environment_file() {
    let vm = Interpreter::new();
    assert_eq!(vm.write_atom_file().unwrap(), b"ATOM\0\0\0\0".to_vec());
}

#[test]
fn file_layout_of_plain_atoms() {
    let mut vm = Interpreter::new();
    vm.register("a", Atom::cons(Atom::nil(), n(1.0)));
    let bytes = vm.write_atom_file().unwrap();
    let mut expected = b"ATOM".to_vec();
    expected.extend_from_slice(&[1, 0, 0, 0]);
    expected.extend_from_slice(&[1, 0, b'a']);
    expected.extend_from_slice(&[3, 0, 1]);
    expected.extend_from_slice(&1.0f64.to_bits().to_le_bytes());
    assert_eq!(bytes, expected);
}

#[test]
fn law_roundtrip_of_plain_atoms() {
    let mut vm = Interpreter::new();
    vm.register("x", n(2.5));
    vm.register("pair", Atom::cons(n(1.0), Atom::cons(Atom::nil(), n(-3.0))));
    vm.register("nothing", Atom::nil());
    let bytes = vm.write_atom_file().unwrap();

    let mut back = Interpreter::new();
    back.load_atom_file(&bytes).unwrap();
    assert_eq!(back.env.len(), 3);
    for name in ["x", "pair", "nothing"] {
        let a = vm.env.get(name).unwrap();
        let b = back.env.get(name).unwrap();
        assert!(a.equals(b), "{} differs", name);
    }
}

#[test]
fn loading_keeps_other_bindings_and_overrides_same_names() {
    let mut src = Interpreter::new();
    src.register("k", n(1.0));
    let bytes = src.write_atom_file().unwrap();
    let mut dst = Interpreter::new();
    dst.register("k", n(9.0));
    dst.register("other", Atom::nil());
    dst.load_atom_file(&bytes).unwrap();
    assert!(matches!(&**dst.env.get("k").unwrap(), Atom::Num(b) if f64::from_bits(*b) == 1.0));
    assert!(dst.env.contains_key("other"));
}

#[test]
fn serialize_atom_appends() {
    let vm = Interpreter::new();
    let mut w = Writer::new();
    vm.serialize_atom(Atom::blob(vec![1, 2]), &mut w).unwrap();
    vm.serialize_atom(Atom::str("hi"), &mut w).unwrap();
    assert_eq!(w.finish(), vec![4, 2, 0, 1, 2, 3, 2, 0, b'h', b'i']);
}

#[test]
fn wrong_magic_is_refused() {
    let mut vm = Interpreter::new();
    assert!(matches!(vm.load_atom_file(b"ATOX\0\0\0\0"), Err(AtomError::InvalidMagic)));
}

#[test]
fn short_files_are_malformed() {
    let mut vm = Interpreter::new();
    assert!(matches!(vm.load_atom_file(b"AT"), Err(AtomError::MalformedBytecode)));
    assert!(matches!(vm.load_atom_file(b"ATOM\x01"), Err(AtomError::MalformedBytecode)));
    assert!(matches!(vm.load_atom_file(b"ATOM\x01\0\0\0"), Err(AtomError::MalformedBytecode)));
}

#[test]
fn entries_read_before_a_failure_stay() {
    let mut bytes = b"ATOM".to_vec();
    bytes.extend_from_slice(&[2, 0, 0, 0]);
    bytes.extend_from_slice(&[1, 0, b'a', 0]);
    bytes.extend_from_slice(&[1, 0, b'b', 9]);
    let mut vm = Interpreter::new();
    assert!(matches!(vm.load_atom_file(&bytes), Err(AtomError::MalformedBytecode)));
    assert!(matches!(&**vm.env.get("a").unwrap(), Atom::Nil));
    assert!(!vm.env.contains_key("b"));
}

#[test]
fn strings_do_not_read_back() {
    let mut vm = Interpreter::new();
    vm.register("s", Atom::str("a"));
    let bytes = vm.write_atom_file().unwrap();
    let mut back = Interpreter::new();
    assert!(matches!(back.load_atom_file(&bytes), Err(AtomError::MalformedBytecode)));
}

#[test]
fn blobs_do_not_read_back() {
    let mut vm = Interpreter::new();
    vm.register("b", Atom::blob(vec![1, 2]));
    let bytes = vm.write_atom_file().unwrap();
    let mut back = Interpreter::new();
    assert!(matches!(back.load_atom_file(&bytes), Err(AtomError::MalformedBytecode)));
}

#[test]
fn tagged_strings_and_blobs_are_read() {
    let mut bytes = b"ATOM".to_vec();
    bytes.extend_from_slice(&[2, 0, 0, 0]);
    bytes.extend_from_slice(&[1, 0, b's', 2, 2, 0, b'h', b'i']);
    bytes.extend_from_slice(&[1, 0, b'b', 4, 2, 0, 0, 0, 7, 8]);
    let mut vm = Interpreter::new();
    vm.load_atom_file(&bytes).unwrap();
    assert!(matches!(&**vm.env.get("s").unwrap(), Atom::Str(s) if s == "hi"));
    assert!(matches!(&**vm.env.get("b").unwrap(), Atom::Blob(b) if b == &vec![7, 8]));
}
