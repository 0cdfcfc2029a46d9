use atom_lang::assembler::Assembler;
use atom_lang::atom::{Atom, AtomError, AtomTag, Opcode};
use atom_lang::bytecode::{Reader, Writable, Writer};
use atom_lang::parser::Builtin;

#[test]
fn writer_writes_little_endian() {
    let mut w = Writer::new();
    w.write(0x12u8).write(0x3456u16).write(0x789abcdeu32).write(1u64);
    assert_eq!(
        w.as_bytes(),
        &[0x12, 0x56, 0x34, 0xde, 0xbc, 0x9a, 0x78, 1, 0, 0, 0, 0, 0, 0, 0]
    );
    assert_eq!(w.len(), 15);
}

#[test]
fn writer_writes_strings_opcodes_tags_and_bytes() {
    let mut w = Writer::new();
    w.write("hé").write(Opcode::Dup).write(AtomTag::Blob).write(vec![9u8, 8]).write_bytes(&[7]);
    assert_eq!(w.finish(), vec![3, 0, b'h', 0xc3, 0xa9, 28, 4, 9, 8, 7]);
}

#[test]
fn to_bytes_of_values() {
    assert_eq!(0x0102u16.to_bytes(), vec![2, 1]);
    assert_eq!("ab".to_bytes(), vec![2, 0, b'a', b'b']);
}

#[test]
fn reader_reads_back_what_was_written() {
    let mut w = Writer::new();
    w.write(7u8).write(0xbeefu16).write(0xdeadbeefu32).write(u64::MAX).write("atom");
    let bytes = w.finish();
    let mut r = Reader::new(&bytes);
    assert_eq!(r.fetch::<u8>().unwrap(), 7);
    assert_eq!(r.fetch::<u16>().unwrap(), 0xbeef);
    assert_eq!(r.fetch::<u32>().unwrap(), 0xdeadbeef);
    assert_eq!(r.fetch::<u64>().unwrap(), u64::MAX);
    assert_eq!(r.fetch_str().unwrap(), "atom");
    assert_eq!(r.len(), 0);
}

#[test]
fn reader_reads_signed_values() {
    let bytes = [0xfe, 0xff];
    let mut r = Reader::new(&bytes);
    assert_eq!(r.fetch::<i16>().unwrap(), -2);
}

#[test]
fn reader_fails_on_short_input_and_reads_nothing() {
    let bytes = [1u8];
    let mut r = Reader::new(&bytes);
    assert!(matches!(r.fetch::<u16>(), Err(AtomError::MalformedBytecode)));
    assert_eq!(r.len(), 1);
    assert!(matches!(r.fetch_vec(2), Err(AtomError::MalformedBytecode)));
    assert_eq!(r.fetch_vec(1).unwrap(), vec![1]);
}

#[test]
fn fetch_str_rejects_bad_input() {
    let short = [5u8, 0, b'a'];
    assert!(matches!(Reader::new(&short).fetch_str(), Err(AtomError::MalformedBytecode)));
    let bad_utf8 = [1u8, 0, 0xff];
    assert!(matches!(Reader::new(&bad_utf8).fetch_str(), Err(AtomError::MalformedBytecode)));
    let empty: [u8; 0] = [];
    assert!(matches!(Reader::new(&empty).fetch_str(), Err(AtomError::MalformedBytecode)));
}

#[test]
fn assembler_encodes_instructions() {
    let code = Assembler::new()
        .push_env("ab")
        .to_ret(2)
        .fetch_ret(1)
        .drop_ret(3)
        .add()
        .block();
    assert!(matches!(&*code, Atom::Blob(b) if b == &vec![0, 2, 0, b'a', b'b', 24, 2, 0, 25, 1, 0, 26, 3, 0, 1]));
}

#[test]
fn assembler_shorthands_match_their_opcodes() {
    let code = Assembler::new()
        .join()
        .cons()
        .out()
        .drop()
        .dup()
        .eval()
        .while_do()
        .do_times()
        .if_then_else()
        .this()
        .halt()
        .op(Opcode::Swap)
        .block();
    assert!(matches!(&*code, Atom::Blob(b) if b == &vec![6, 7, 11, 32, 28, 18, 21, 22, 19, 10, 23, 29]));
}

#[test]
fn opcode_bytes_round_trip() {
    for b in 0u8..=32 {
        let op = Opcode::try_from_byte(b).unwrap();
        assert_eq!(op.to_byte(), b);
    }
    assert!(matches!(Opcode::try_from_byte(33), Err(AtomError::InvalidOpcode(33))));
}

#[test]
fn tag_bytes_round_trip() {
    for b in 0u8..=4 {
        assert_eq!(AtomTag::try_from_byte(b).unwrap().to_byte(), b);
    }
    assert!(matches!(AtomTag::try_from_byte(5), Err(AtomError::MalformedBytecode)));
}

#[test]
fn law_builtin_opcode_injective_concrete() {
    let all = [
        Builtin::Out, Builtin::Dup, Builtin::Over, Builtin::Lt, Builtin::Lte, Builtin::Gt,
        Builtin::Gte, Builtin::Eq, Builtin::Not, Builtin::Nip, Builtin::Drop, Builtin::This,
        Builtin::StringCast, Builtin::Head, Builtin::Tail, Builtin::Swap, Builtin::Add,
        Builtin::Sub, Builtin::Mult, Builtin::Div, Builtin::Mod, Builtin::Eval, Builtin::Cons,
        Builtin::Join, Builtin::Times, Builtin::WhileDo, Builtin::IfThen, Builtin::IfThenElse,
    ];
    let bytes: Vec<u8> = all.iter().map(|b| Opcode::from(*b).to_byte()).collect();
    for i in 0..bytes.len() {
        for j in (i + 1)..bytes.len() {
            assert_ne!(bytes[i], bytes[j]);
        }
    }
    assert_eq!(Opcode::from(Builtin::Times), Opcode::DoTimes);
    assert_eq!(Opcode::from(Builtin::StringCast), Opcode::StringCast);
}

#[test]
fn law_writes_concatenate_concrete() {
    let mut w = Writer::new();
    w.write(1u8);
    w.write("ab");
    w.write(0x0302u16);
    let mut expected = Vec::new();
    expected.extend(1u8.to_bytes());
    expected.extend("ab".to_bytes());
    expected.extend(0x0302u16.to_bytes());
    assert_eq!(w.as_bytes(), expected.as_slice());
}
