//! Values of the language, the errors of every stage, and the opcode and
//! tag bytes of the bytecode format.
use std::rc::Rc;
use vstd::prelude::*;

use crate::parser::Builtin;
use crate::text::string_from_chars;

verus! {

/// Every failure the lexer, parser, compiler, bytecode reader and
/// interpreter can report.
#[derive(Debug)]
pub enum AtomError {
    MalformedBytecode,
    StackUnderflow,
    RetStackUnderflow,
    TypeMismatch,
    Halt,
    InvalidEnvId(String),
    /// A byte that names no opcode.
    InvalidOpcode(u8),
    InvalidMagic,
    UnmappableNode,
    UnboundVariable(String),
    InvalidEscape { index: usize, ch: char },
    TrailingBackslash,
    SyntaxError { message: String, line: usize, column: usize },
}

/// The mathematical value of an `AtomError`.
pub enum ErrorModel {
    MalformedBytecode,
    StackUnderflow,
    RetStackUnderflow,
    TypeMismatch,
    Halt,
    InvalidEnvId(Seq<char>),
    InvalidOpcode(u8),
    InvalidMagic,
    UnmappableNode,
    UnboundVariable(Seq<char>),
    InvalidEscape { index: usize, ch: char },
    TrailingBackslash,
    SyntaxError { message: Seq<char>, line: usize, column: usize },
}

impl View for AtomError {
    type V = ErrorModel;

    open spec fn view(&self) -> ErrorModel {
        match self {
            AtomError::MalformedBytecode => ErrorModel::MalformedBytecode,
            AtomError::StackUnderflow => ErrorModel::StackUnderflow,
            AtomError::RetStackUnderflow => ErrorModel::RetStackUnderflow,
            AtomError::TypeMismatch => ErrorModel::TypeMismatch,
            AtomError::Halt => ErrorModel::Halt,
            AtomError::InvalidEnvId(s) => ErrorModel::InvalidEnvId(s@),
            AtomError::InvalidOpcode(b) => ErrorModel::InvalidOpcode(*b),
            AtomError::InvalidMagic => ErrorModel::InvalidMagic,
            AtomError::UnmappableNode => ErrorModel::UnmappableNode,
            AtomError::UnboundVariable(s) => ErrorModel::UnboundVariable(s@),
            AtomError::InvalidEscape { index, ch } => ErrorModel::InvalidEscape {
                index: *index,
                ch: *ch,
            },
            AtomError::TrailingBackslash => ErrorModel::TrailingBackslash,
            AtomError::SyntaxError { message, line, column } => ErrorModel::SyntaxError {
                message: message@,
                line: *line,
                column: *column,
            },
        }
    }
}

pub type AtomResult<T> = Result<T, AtomError>;

/// A value. A number is held as the IEEE-754 bit pattern of a 64-bit float.
#[derive(Debug)]
pub enum Atom {
    Nil,
    Cons(AtomRef, AtomRef),
    Blob(Vec<u8>),
    Str(String),
    Num(u64),
}

pub type AtomRef = Rc<Atom>;

/// The mathematical value of an `Atom`.
pub enum AtomModel {
    Nil,
    Cons(Box<AtomModel>, Box<AtomModel>),
    Blob(Seq<u8>),
    Str(Seq<char>),
    Num(u64),
}

impl View for Atom {
    type V = AtomModel;

    open spec fn view(&self) -> AtomModel
        decreases self,
    {
        match self {
            Atom::Nil => AtomModel::Nil,
            Atom::Cons(h, t) => AtomModel::Cons(Box::new((**h).view()), Box::new((**t).view())),
            Atom::Blob(b) => AtomModel::Blob(b@),
            Atom::Str(s) => AtomModel::Str(s@),
            Atom::Num(n) => AtomModel::Num(*n),
        }
    }
}

/// Bits of the float `1.0`.
pub const ONE_BITS: u64 = 0x3FF0_0000_0000_0000u64;

/// Bits of the float `0.0`.
pub const ZERO_BITS: u64 = 0u64;

/// Sign bit of a 64-bit float.
pub const SIGN_BIT: u64 = 0x8000_0000_0000_0000u64;

/// A float is zero (either sign) when all bits but the sign are clear.
pub open spec fn num_is_zero(bits: u64) -> bool {
    bits % SIGN_BIT == 0
}

/// A float is NaN when its exponent field is all ones and its fraction is not zero.
pub open spec fn num_is_nan(bits: u64) -> bool {
    (bits / 0x10_0000_0000_0000u64) % 2048 == 2047 && bits % 0x10_0000_0000_0000u64 != 0
}

/// IEEE-754 equality of two floats given by their bits: NaN equals
/// nothing, and the two zeros are equal.
pub open spec fn num_eq(a: u64, b: u64) -> bool {
    !num_is_nan(a) && !num_is_nan(b) && (a == b || (num_is_zero(a) && num_is_zero(b)))
}

/// Bits of the float that stands for a boolean: `1.0` or `0.0`.
pub open spec fn bool_bits(b: bool) -> u64 {
    if b {
        ONE_BITS
    } else {
        ZERO_BITS
    }
}

/// Truthiness: nil is false, a pair is true when either part is, a blob or
/// a string when it is not empty, a number when it is not zero.
pub open spec fn spec_truthful(a: AtomModel) -> bool
    decreases a,
{
    match a {
        AtomModel::Nil => false,
        AtomModel::Cons(h, t) => spec_truthful(*h) || spec_truthful(*t),
        AtomModel::Blob(b) => b.len() != 0,
        AtomModel::Str(s) => s.len() != 0,
        AtomModel::Num(n) => !num_is_zero(n),
    }
}

/// Structural equality of atoms, with IEEE-754 equality on numbers.
pub open spec fn spec_atom_eq(a: AtomModel, b: AtomModel) -> bool
    decreases a,
{
    match (a, b) {
        (AtomModel::Nil, AtomModel::Nil) => true,
        (AtomModel::Cons(h1, t1), AtomModel::Cons(h2, t2)) => spec_atom_eq(*h1, *h2)
            && spec_atom_eq(*t1, *t2),
        (AtomModel::Blob(x), AtomModel::Blob(y)) => x == y,
        (AtomModel::Str(x), AtomModel::Str(y)) => x == y,
        (AtomModel::Num(x), AtomModel::Num(y)) => num_eq(x, y),
        _ => false,
    }
}

pub fn num_is_zero_exec(bits: u64) -> (r: bool)
    ensures
        r == num_is_zero(bits),
{
    bits % SIGN_BIT == 0
}

pub fn num_eq_exec(a: u64, b: u64) -> (r: bool)
    ensures
        r == num_eq(a, b),
{
    let a_nan = (a / 0x10_0000_0000_0000u64) % 2048 == 2047 && a % 0x10_0000_0000_0000u64 != 0;
    let b_nan = (b / 0x10_0000_0000_0000u64) % 2048 == 2047 && b % 0x10_0000_0000_0000u64 != 0;
    !a_nan && !b_nan && (a == b || (a % SIGN_BIT == 0 && b % SIGN_BIT == 0))
}

/// One piece of the printed form of an atom: literal text, or a number
/// whose decimal form is written by the float formatter.
#[derive(Debug)]
pub enum Piece {
    Text(String),
    Number(u64),
}

pub enum PieceModel {
    Text(Seq<char>),
    Number(u64),
}

impl View for Piece {
    type V = PieceModel;

    open spec fn view(&self) -> PieceModel {
        match self {
            Piece::Text(s) => PieceModel::Text(s@),
            Piece::Number(n) => PieceModel::Number(*n),
        }
    }
}

pub open spec fn pieces_view(v: Seq<Piece>) -> Seq<PieceModel> {
    v.map_values(|p: Piece| p@)
}

/// Lower-case hexadecimal digit of a value below 16.
pub open spec fn hex_digit(n: u8) -> char {
    if n < 10 {
        (48 + n) as char
    } else {
        (87 + n) as char
    }
}

/// A byte as two lower-case hexadecimal digits.
pub open spec fn hex_byte(b: u8) -> Seq<char> {
    seq![hex_digit(b / 16), hex_digit(b % 16)]
}

/// The bytes as hexadecimal pairs separated by single spaces.
pub open spec fn hex_list(b: Seq<u8>) -> Seq<char>
    decreases b.len(),
{
    if b.len() == 0 {
        seq![]
    } else if b.len() == 1 {
        hex_byte(b[0])
    } else {
        hex_list(b.drop_last()) + seq![' '] + hex_byte(b.last())
    }
}

/// Printed form of a blob: `#[` , the hexadecimal pairs, `]`.
pub open spec fn blob_text(b: Seq<u8>) -> Seq<char> {
    seq!['#', '['] + hex_list(b) + seq![']']
}

/// Printed form of an atom: `nil`; `(head . tail)`; a blob in hexadecimal;
/// a string as it is; a number by the float formatter.
pub open spec fn spec_pieces(a: AtomModel) -> Seq<PieceModel>
    decreases a,
{
    match a {
        AtomModel::Nil => seq![PieceModel::Text(seq!['n', 'i', 'l'])],
        AtomModel::Cons(h, t) => seq![PieceModel::Text(seq!['('])] + spec_pieces(*h) + seq![
            PieceModel::Text(seq![' ', '.', ' '])
        ] + spec_pieces(*t) + seq![PieceModel::Text(seq![')'])],
        AtomModel::Blob(b) => seq![PieceModel::Text(blob_text(b))],
        AtomModel::Str(s) => seq![PieceModel::Text(s)],
        AtomModel::Num(n) => seq![PieceModel::Number(n)],
    }
}

fn hex_digit_exec(n: u8) -> (c: char)
    requires
        n < 16,
    ensures
        c == hex_digit(n),
{
    if n < 10 {
        (48u8 + n) as char
    } else {
        (87u8 + n) as char
    }
}

fn text_piece(s: &str) -> (p: Piece)
    ensures
        p@ == PieceModel::Text(s@),
{
    Piece::Text(s.to_owned())
}

/// The printed form of a blob.
pub fn blob_to_text(b: &Vec<u8>) -> (s: String)
    ensures
        s@ == blob_text(b@),
{
    let mut out: Vec<char> = Vec::new();
    out.push('#');
    out.push('[');
    let mut i: usize = 0;
    while i < b.len()
        invariant
            i <= b.len(),
            out@ == seq!['#', '['] + hex_list(b@.take(i as int)),
        decreases b.len() - i,
    {
        let ghost prev = out@;
        if i > 0 {
            out.push(' ');
        }
        let x = b[i];
        out.push(hex_digit_exec(x / 16));
        out.push(hex_digit_exec(x % 16));
        proof {
            let s = b@.take(i + 1);
            assert(s.drop_last() =~= b@.take(i as int));
            assert(s.last() == x);
            if i == 0 {
                assert(hex_list(b@.take(0)) =~= Seq::<char>::empty());
                assert(s.len() == 1);
            }
            assert(out@ =~= seq!['#', '['] + hex_list(s));
        }
        i = i + 1;
    }
    assert(b@.take(b@.len() as int) =~= b@);
    out.push(']');
    assert(out@ =~= blob_text(b@));
    string_from_chars(&out)
}

impl Atom {
    pub fn nil() -> (r: AtomRef)
        ensures
            r@ == AtomModel::Nil,
    {
        Rc::new(Atom::Nil)
    }

    pub fn cons(head: AtomRef, tail: AtomRef) -> (r: AtomRef)
        ensures
            r@ == AtomModel::Cons(Box::new(head@), Box::new(tail@)),
    {
        Rc::new(Atom::Cons(head, tail))
    }

    pub fn blob(blob: Vec<u8>) -> (r: AtomRef)
        ensures
            r@ == AtomModel::Blob(blob@),
    {
        Rc::new(Atom::Blob(blob))
    }

    /// A number, given by the bits of its 64-bit float.
    pub fn num(num: u64) -> (r: AtomRef)
        ensures
            r@ == AtomModel::Num(num),
    {
        Rc::new(Atom::Num(num))
    }

    pub fn string(str: String) -> (r: AtomRef)
        ensures
            r@ == AtomModel::Str(str@),
    {
        Rc::new(Atom::Str(str))
    }

    pub fn str(s: &str) -> (r: AtomRef)
        ensures
            r@ == AtomModel::Str(s@),
    {
        Rc::new(Atom::Str(s.to_owned()))
    }

    /// `1.0` for true and `0.0` for false.
    pub fn boolean(b: bool) -> (r: AtomRef)
        ensures
            r@ == AtomModel::Num(bool_bits(b)),
    {
        Rc::new(Atom::Num(if b { ONE_BITS } else { ZERO_BITS }))
    }

    pub fn truthful(&self) -> (r: bool)
        ensures
            r == spec_truthful(self@),
        decreases self,
    {
        match self {
            Atom::Nil => false,
            Atom::Cons(head, tail) => head.truthful() || tail.truthful(),
            Atom::Blob(b) => b.len() != 0,
            Atom::Str(s) => !s.as_str().is_empty(),
            Atom::Num(n) => !num_is_zero_exec(*n),
        }
    }

    pub fn tag(&self) -> (r: AtomTag)
        ensures
            r == spec_tag(self@),
    {
        match self {
            Atom::Nil => AtomTag::Nil,
            Atom::Num(_) => AtomTag::Num,
            Atom::Str(_) => AtomTag::Str,
            Atom::Cons(_, _) => AtomTag::Cons,
            Atom::Blob(_) => AtomTag::Blob,
        }
    }

    /// Structural equality, numbers compared as floats.
    pub fn equals(&self, other: &Atom) -> (r: bool)
        ensures
            r == spec_atom_eq(self@, other@),
        decreases self,
    {
        match (self, other) {
            (Atom::Nil, Atom::Nil) => true,
            (Atom::Cons(h1, t1), Atom::Cons(h2, t2)) => h1.equals(h2) && t1.equals(t2),
            (Atom::Blob(x), Atom::Blob(y)) => bytes_equal(x, y),
            (Atom::Str(x), Atom::Str(y)) => {
                let r = *x == *y;
                assert(r == (x@ == y@));
                r
            },
            (Atom::Num(x), Atom::Num(y)) => num_eq_exec(*x, *y),
            _ => false,
        }
    }

    /// Appends the printed form of the atom to `out`.
    pub fn write_pieces(&self, out: &mut Vec<Piece>)
        ensures
            pieces_view(final(out)@) == pieces_view(old(out)@) + spec_pieces(self@),
        decreases self,
    {
        let ghost start = pieces_view(out@);
        match self {
            Atom::Nil => {
                out.push(text_piece("nil"));
                proof {
                    reveal_strlit("nil");
                    assert("nil"@ =~= seq!['n', 'i', 'l']);
                }
            },
            Atom::Cons(h, t) => {
                let p = text_piece("(");
                proof {
                    reveal_strlit("(");
                    assert("("@ =~= seq!['(']);
                }
                out.push(p);
                let ghost a1 = pieces_view(out@);
                assert(a1.len() == start.len() + 1);
                assert(a1.last() == PieceModel::Text(seq!['(']));
                assert(a1 =~= start + seq![PieceModel::Text(seq!['('])]);
                h.write_pieces(out);
                out.push(text_piece(" . "));
                proof {
                    reveal_strlit(" . ");
                    assert(" . "@ =~= seq![' ', '.', ' ']);
                }
                let ghost a2 = pieces_view(out@);
                assert(a2 =~= a1 + spec_pieces(h@) + seq![PieceModel::Text(seq![' ', '.', ' '])]);
                t.write_pieces(out);
                let ghost a3 = pieces_view(out@);
                out.push(text_piece(")"));
                proof {
                    reveal_strlit(")");
                    assert(")"@ =~= seq![')']);
                }
                assert(pieces_view(out@) =~= a3 + seq![PieceModel::Text(seq![')'])]);
                assert(self@ == AtomModel::Cons(Box::new(h@), Box::new(t@)));
                assert(pieces_view(out@) =~= start + spec_pieces(self@));
                return ;
            },
            Atom::Blob(b) => {
                out.push(Piece::Text(blob_to_text(b)));
            },
            Atom::Str(s) => {
                out.push(Piece::Text(s.clone()));
            },
            Atom::Num(n) => {
                out.push(Piece::Number(*n));
            },
        }
        assert(pieces_view(out@) =~= start + spec_pieces(self@));
    }

    /// The printed form of the atom, in pieces.
    pub fn pieces(&self) -> (r: Vec<Piece>)
        ensures
            pieces_view(r@) == spec_pieces(self@),
    {
        let mut out = Vec::new();
        self.write_pieces(&mut out);
        assert(pieces_view(out@) =~= Seq::<PieceModel>::empty() + spec_pieces(self@));
        out
    }
}

pub fn bytes_equal(x: &Vec<u8>, y: &Vec<u8>) -> (r: bool)
    ensures
        r == (x@ == y@),
{
    if x.len() != y.len() {
        return false;
    }
    let mut i: usize = 0;
    while i < x.len()
        invariant
            i <= x.len(),
            x.len() == y.len(),
            x@.take(i as int) == y@.take(i as int),
        decreases x.len() - i,
    {
        if x[i] != y[i] {
            assert(x@.take(i as int + 1)[i as int] != y@.take(i as int + 1)[i as int]);
            assert(x@ != y@ || x@.take(i as int + 1) == y@.take(i as int + 1));
            return false;
        }
        assert(x@.take(i as int + 1) =~= x@.take(i as int).push(x@[i as int]));
        assert(y@.take(i as int + 1) =~= y@.take(i as int).push(y@[i as int]));
        i = i + 1;
    }
    assert(x@.take(i as int) =~= x@);
    assert(y@.take(i as int) =~= y@);
    true
}

/// The one-byte tag that precedes each atom in the atom-file format.
#[derive(Clone, Copy, Debug, PartialEq, Eq, Structural)]
pub enum AtomTag {
    Nil,
    Num,
    Str,
    Cons,
    Blob,
}

pub open spec fn spec_tag(a: AtomModel) -> AtomTag {
    match a {
        AtomModel::Nil => AtomTag::Nil,
        AtomModel::Num(_) => AtomTag::Num,
        AtomModel::Str(_) => AtomTag::Str,
        AtomModel::Cons(_, _) => AtomTag::Cons,
        AtomModel::Blob(_) => AtomTag::Blob,
    }
}

impl AtomTag {
    pub open spec fn spec_byte(self) -> u8 {
        match self {
            AtomTag::Nil => 0,
            AtomTag::Num => 1,
            AtomTag::Str => 2,
            AtomTag::Cons => 3,
            AtomTag::Blob => 4,
        }
    }

    pub open spec fn spec_from_byte(b: u8) -> Option<AtomTag> {
        if b == 0 {
            Some(AtomTag::Nil)
        } else if b == 1 {
            Some(AtomTag::Num)
        } else if b == 2 {
            Some(AtomTag::Str)
        } else if b == 3 {
            Some(AtomTag::Cons)
        } else if b == 4 {
            Some(AtomTag::Blob)
        } else {
            None
        }
    }

    pub fn to_byte(self) -> (b: u8)
        ensures
            b == self.spec_byte(),
    {
        match self {
            AtomTag::Nil => 0,
            AtomTag::Num => 1,
            AtomTag::Str => 2,
            AtomTag::Cons => 3,
            AtomTag::Blob => 4,
        }
    }

    /// The tag a byte names; `MalformedBytecode` for any other byte.
    pub fn try_from_byte(b: u8) -> (r: AtomResult<AtomTag>)
        ensures
            r matches Ok(t) ==> Self::spec_from_byte(b) == Some(t),
            r matches Err(e) ==> Self::spec_from_byte(b) is None && e@
                == ErrorModel::MalformedBytecode,
    {
        if b == 0 {
            Ok(AtomTag::Nil)
        } else if b == 1 {
            Ok(AtomTag::Num)
        } else if b == 2 {
            Ok(AtomTag::Str)
        } else if b == 3 {
            Ok(AtomTag::Cons)
        } else if b == 4 {
            Ok(AtomTag::Blob)
        } else {
            Err(AtomError::MalformedBytecode)
        }
    }
}

/// A tag written as its byte reads back as the same tag, and a byte that
/// names a tag is that tag's byte.
pub proof fn law_tag_byte_roundtrip(t: AtomTag, b: u8)
    ensures
        AtomTag::spec_from_byte(t.spec_byte()) == Some(t),
        AtomTag::spec_from_byte(b) matches Some(u) ==> u.spec_byte() == b,
{
}

/// The instructions of the bytecode; each is written as one byte, its
/// position in this list.
#[derive(Clone, Copy, Debug, PartialEq, Eq, Structural)]
pub enum Opcode {
    PushEnv,
    Add,
    Sub,
    Mult,
    Div,
    Mod,
    Join,
    Cons,
    Head,
    Tail,
    This,
    Out,
    Lt,
    Lte,
    Gt,
    Gte,
    Eq,
    Not,
    Eval,
    IfThenElse,
    IfThen,
    WhileDo,
    DoTimes,
    Halt,
    ToRet,
    FetchRet,
    DropRet,
    StringCast,
    Dup,
    Swap,
    Over,
    Nip,
    Drop,
}

} // verus!

verus! {

impl Opcode {
    pub open spec fn spec_byte(self) -> u8 {
        match self {
            Opcode::PushEnv => 0,
            Opcode::Add => 1,
            Opcode::Sub => 2,
            Opcode::Mult => 3,
            Opcode::Div => 4,
            Opcode::Mod => 5,
            Opcode::Join => 6,
            Opcode::Cons => 7,
            Opcode::Head => 8,
            Opcode::Tail => 9,
            Opcode::This => 10,
            Opcode::Out => 11,
            Opcode::Lt => 12,
            Opcode::Lte => 13,
            Opcode::Gt => 14,
            Opcode::Gte => 15,
            Opcode::Eq => 16,
            Opcode::Not => 17,
            Opcode::Eval => 18,
            Opcode::IfThenElse => 19,
            Opcode::IfThen => 20,
            Opcode::WhileDo => 21,
            Opcode::DoTimes => 22,
            Opcode::Halt => 23,
            Opcode::ToRet => 24,
            Opcode::FetchRet => 25,
            Opcode::DropRet => 26,
            Opcode::StringCast => 27,
            Opcode::Dup => 28,
            Opcode::Swap => 29,
            Opcode::Over => 30,
            Opcode::Nip => 31,
            Opcode::Drop => 32,
        }
    }

    pub open spec fn spec_from_byte(b: u8) -> Option<Opcode> {
        if b == 0 {
            Some(Opcode::PushEnv)
        } else if b == 1 {
            Some(Opcode::Add)
        } else if b == 2 {
            Some(Opcode::Sub)
        } else if b == 3 {
            Some(Opcode::Mult)
        } else if b == 4 {
            Some(Opcode::Div)
        } else if b == 5 {
            Some(Opcode::Mod)
        } else if b == 6 {
            Some(Opcode::Join)
        } else if b == 7 {
            Some(Opcode::Cons)
        } else if b == 8 {
            Some(Opcode::Head)
        } else if b == 9 {
            Some(Opcode::Tail)
        } else if b == 10 {
            Some(Opcode::This)
        } else if b == 11 {
            Some(Opcode::Out)
        } else if b == 12 {
            Some(Opcode::Lt)
        } else if b == 13 {
            Some(Opcode::Lte)
        } else if b == 14 {
            Some(Opcode::Gt)
        } else if b == 15 {
            Some(Opcode::Gte)
        } else if b == 16 {
            Some(Opcode::Eq)
        } else if b == 17 {
            Some(Opcode::Not)
        } else if b == 18 {
            Some(Opcode::Eval)
        } else if b == 19 {
            Some(Opcode::IfThenElse)
        } else if b == 20 {
            Some(Opcode::IfThen)
        } else if b == 21 {
            Some(Opcode::WhileDo)
        } else if b == 22 {
            Some(Opcode::DoTimes)
        } else if b == 23 {
            Some(Opcode::Halt)
        } else if b == 24 {
            Some(Opcode::ToRet)
        } else if b == 25 {
            Some(Opcode::FetchRet)
        } else if b == 26 {
            Some(Opcode::DropRet)
        } else if b == 27 {
            Some(Opcode::StringCast)
        } else if b == 28 {
            Some(Opcode::Dup)
        } else if b == 29 {
            Some(Opcode::Swap)
        } else if b == 30 {
            Some(Opcode::Over)
        } else if b == 31 {
            Some(Opcode::Nip)
        } else if b == 32 {
            Some(Opcode::Drop)
        } else {
            None
        }
    }

    pub fn to_byte(self) -> (b: u8)
        ensures
            b == self.spec_byte(),
    {
        match self {
            Opcode::PushEnv => 0,
            Opcode::Add => 1,
            Opcode::Sub => 2,
            Opcode::Mult => 3,
            Opcode::Div => 4,
            Opcode::Mod => 5,
            Opcode::Join => 6,
            Opcode::Cons => 7,
            Opcode::Head => 8,
            Opcode::Tail => 9,
            Opcode::This => 10,
            Opcode::Out => 11,
            Opcode::Lt => 12,
            Opcode::Lte => 13,
            Opcode::Gt => 14,
            Opcode::Gte => 15,
            Opcode::Eq => 16,
            Opcode::Not => 17,
            Opcode::Eval => 18,
            Opcode::IfThenElse => 19,
            Opcode::IfThen => 20,
            Opcode::WhileDo => 21,
            Opcode::DoTimes => 22,
            Opcode::Halt => 23,
            Opcode::ToRet => 24,
            Opcode::FetchRet => 25,
            Opcode::DropRet => 26,
            Opcode::StringCast => 27,
            Opcode::Dup => 28,
            Opcode::Swap => 29,
            Opcode::Over => 30,
            Opcode::Nip => 31,
            Opcode::Drop => 32,
        }
    }

    /// The opcode a byte names; `InvalidOpcode` with the byte for any other byte.
    pub fn try_from_byte(b: u8) -> (r: AtomResult<Opcode>)
        ensures
            r matches Ok(op) ==> Self::spec_from_byte(b) == Some(op),
            r matches Err(e) ==> Self::spec_from_byte(b) is None && e@ == ErrorModel::InvalidOpcode(b),
    {
        match b {
            0 => Ok(Opcode::PushEnv),
            1 => Ok(Opcode::Add),
            2 => Ok(Opcode::Sub),
            3 => Ok(Opcode::Mult),
            4 => Ok(Opcode::Div),
            5 => Ok(Opcode::Mod),
            6 => Ok(Opcode::Join),
            7 => Ok(Opcode::Cons),
            8 => Ok(Opcode::Head),
            9 => Ok(Opcode::Tail),
            10 => Ok(Opcode::This),
            11 => Ok(Opcode::Out),
            12 => Ok(Opcode::Lt),
            13 => Ok(Opcode::Lte),
            14 => Ok(Opcode::Gt),
            15 => Ok(Opcode::Gte),
            16 => Ok(Opcode::Eq),
            17 => Ok(Opcode::Not),
            18 => Ok(Opcode::Eval),
            19 => Ok(Opcode::IfThenElse),
            20 => Ok(Opcode::IfThen),
            21 => Ok(Opcode::WhileDo),
            22 => Ok(Opcode::DoTimes),
            23 => Ok(Opcode::Halt),
            24 => Ok(Opcode::ToRet),
            25 => Ok(Opcode::FetchRet),
            26 => Ok(Opcode::DropRet),
            27 => Ok(Opcode::StringCast),
            28 => Ok(Opcode::Dup),
            29 => Ok(Opcode::Swap),
            30 => Ok(Opcode::Over),
            31 => Ok(Opcode::Nip),
            32 => Ok(Opcode::Drop),
            _ => Err(AtomError::InvalidOpcode(b)),
        }
    }
}

/// An opcode written as its byte reads back as the same opcode, and a byte
/// that names an opcode is that opcode's byte.
pub proof fn law_opcode_byte_roundtrip(op: Opcode, b: u8)
    ensures
        Opcode::spec_from_byte(op.spec_byte()) == Some(op),
        Opcode::spec_from_byte(b) matches Some(o) ==> o.spec_byte() == b,
        Opcode::spec_from_byte(b) is Some <==> b < 33,
{
}

/// The opcode that carries out a builtin word.
pub open spec fn spec_builtin_opcode(b: Builtin) -> Opcode {
    match b {
        Builtin::Add => Opcode::Add,
        Builtin::Sub => Opcode::Sub,
        Builtin::Mult => Opcode::Mult,
        Builtin::Div => Opcode::Div,
        Builtin::Mod => Opcode::Mod,
        Builtin::Join => Opcode::Join,
        Builtin::Cons => Opcode::Cons,
        Builtin::Head => Opcode::Head,
        Builtin::Tail => Opcode::Tail,
        Builtin::This => Opcode::This,
        Builtin::Out => Opcode::Out,
        Builtin::Lt => Opcode::Lt,
        Builtin::Lte => Opcode::Lte,
        Builtin::Gt => Opcode::Gt,
        Builtin::Gte => Opcode::Gte,
        Builtin::Eq => Opcode::Eq,
        Builtin::Not => Opcode::Not,
        Builtin::Eval => Opcode::Eval,
        Builtin::IfThenElse => Opcode::IfThenElse,
        Builtin::IfThen => Opcode::IfThen,
        Builtin::WhileDo => Opcode::WhileDo,
        Builtin::Times => Opcode::DoTimes,
        Builtin::StringCast => Opcode::StringCast,
        Builtin::Dup => Opcode::Dup,
        Builtin::Swap => Opcode::Swap,
        Builtin::Over => Opcode::Over,
        Builtin::Nip => Opcode::Nip,
        Builtin::Drop => Opcode::Drop,
    }
}

impl From<Builtin> for Opcode {
    fn from(value: Builtin) -> (r: Opcode) {
        match value {
            Builtin::Add => Opcode::Add,
            Builtin::Sub => Opcode::Sub,
            Builtin::Mult => Opcode::Mult,
            Builtin::Div => Opcode::Div,
            Builtin::Mod => Opcode::Mod,
            Builtin::Join => Opcode::Join,
            Builtin::Cons => Opcode::Cons,
            Builtin::Head => Opcode::Head,
            Builtin::Tail => Opcode::Tail,
            Builtin::This => Opcode::This,
            Builtin::Out => Opcode::Out,
            Builtin::Lt => Opcode::Lt,
            Builtin::Lte => Opcode::Lte,
            Builtin::Gt => Opcode::Gt,
            Builtin::Gte => Opcode::Gte,
            Builtin::Eq => Opcode::Eq,
            Builtin::Not => Opcode::Not,
            Builtin::Eval => Opcode::Eval,
            Builtin::IfThenElse => Opcode::IfThenElse,
            Builtin::IfThen => Opcode::IfThen,
            Builtin::WhileDo => Opcode::WhileDo,
            Builtin::Times => Opcode::DoTimes,
            Builtin::StringCast => Opcode::StringCast,
            Builtin::Dup => Opcode::Dup,
            Builtin::Swap => Opcode::Swap,
            Builtin::Over => Opcode::Over,
            Builtin::Nip => Opcode::Nip,
            Builtin::Drop => Opcode::Drop,
        }
    }
}

impl vstd::std_specs::convert::FromSpecImpl<Builtin> for Opcode {
    open spec fn obeys_from_spec() -> bool {
        true
    }

    open spec fn from_spec(v: Builtin) -> Opcode {
        spec_builtin_opcode(v)
    }
}

/// Distinct builtins are carried out by distinct opcodes.
pub proof fn law_builtin_opcode_injective(a: Builtin, b: Builtin)
    ensures
        spec_builtin_opcode(a) == spec_builtin_opcode(b) ==> a == b,
{
}

/// Truth of atoms: nil is false; a number is false exactly when it is zero
/// of either sign; a string or a blob is false exactly when it is empty; a
/// pair is true exactly when one of its parts is.
pub proof fn law_truthful(s: Seq<char>, b: Seq<u8>, n: u64, h: AtomModel, t: AtomModel)
    ensures
        !spec_truthful(AtomModel::Nil),
        spec_truthful(AtomModel::Str(s)) <==> s.len() > 0,
        spec_truthful(AtomModel::Blob(b)) <==> b.len() > 0,
        spec_truthful(AtomModel::Num(n)) <==> (n != ZERO_BITS && n != SIGN_BIT),
        spec_truthful(AtomModel::Cons(Box::new(h), Box::new(t))) <==> (spec_truthful(h)
            || spec_truthful(t)),
{
    assert(n % SIGN_BIT == 0 <==> (n == ZERO_BITS || n == SIGN_BIT)) by (bit_vector)
        requires
            SIGN_BIT == 0x8000_0000_0000_0000u64,
            ZERO_BITS == 0u64,
    ;
}

} // verus!
