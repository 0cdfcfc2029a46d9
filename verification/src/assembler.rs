//! Builds bytecode blobs instruction by instruction.
use vstd::prelude::*;

use crate::atom::{Atom, AtomModel, AtomRef, Opcode};
use crate::bytecode::{Writable, Writer, le16, str_bytes};

verus! {

/// Appends instructions to a growing bytecode buffer.
pub struct Assembler {
    writer: Writer,
}

impl View for Assembler {
    type V = Seq<u8>;

    closed spec fn view(&self) -> Seq<u8> {
        self.writer@
    }
}

/// The encoding of an instruction that has a 16-bit operand.
pub open spec fn op_with_u16(op: Opcode, n: u16) -> Seq<u8> {
    seq![op.spec_byte()] + le16(n)
}

impl Assembler {
    pub fn new() -> (a: Assembler)
        ensures
            a@ == Seq::<u8>::empty(),
    {
        Self { writer: Writer::new() }
    }

    /// Appends an instruction without operand.
    pub fn op(self, op: Opcode) -> (a: Assembler)
        ensures
            a@ == self@.push(op.spec_byte()),
    {
        let ghost before = self@;
        let mut built = self;
        built.writer.write(op);
        assert(built.writer@ =~= before.push(op.spec_byte()));
        built
    }

    /// Appends `PushEnv` and the name it looks up.
    pub fn push_env(self, name: &str) -> (a: Assembler)
        ensures
            a@ == self@.push(Opcode::PushEnv.spec_byte()) + str_bytes(name@),
    {
        let ghost before = self@;
        let mut built = self;
        built.writer.write(Opcode::PushEnv);
        built.writer.write(name);
        assert(built.writer@ =~= before.push(Opcode::PushEnv.spec_byte()) + str_bytes(name@));
        built
    }

    /// Appends `ToRet` with the number of values to move.
    pub fn to_ret(self, count: u16) -> (a: Assembler)
        ensures
            a@ == self@ + op_with_u16(Opcode::ToRet, count),
    {
        let ghost before = self@;
        let mut built = self;
        built.writer.write(Opcode::ToRet);
        built.writer.write(count);
        assert(built.writer@ =~= before + op_with_u16(Opcode::ToRet, count));
        built
    }

    /// Appends `FetchRet` with the depth of the value to copy.
    pub fn fetch_ret(self, id: u16) -> (a: Assembler)
        ensures
            a@ == self@ + op_with_u16(Opcode::FetchRet, id),
    {
        let ghost before = self@;
        let mut built = self;
        built.writer.write(Opcode::FetchRet);
        built.writer.write(id);
        assert(built.writer@ =~= before + op_with_u16(Opcode::FetchRet, id));
        built
    }

    /// Appends `DropRet` with the number of values to discard.
    pub fn drop_ret(self, count: u16) -> (a: Assembler)
        ensures
            a@ == self@ + op_with_u16(Opcode::DropRet, count),
    {
        let ghost before = self@;
        let mut built = self;
        built.writer.write(Opcode::DropRet);
        built.writer.write(count);
        assert(built.writer@ =~= before + op_with_u16(Opcode::DropRet, count));
        built
    }

    pub fn add(self) -> (a: Assembler)
        ensures
            a@ == self@.push(Opcode::Add.spec_byte()),
    {
        self.op(Opcode::Add)
    }

    pub fn join(self) -> (a: Assembler)
        ensures
            a@ == self@.push(Opcode::Join.spec_byte()),
    {
        self.op(Opcode::Join)
    }

    pub fn cons(self) -> (a: Assembler)
        ensures
            a@ == self@.push(Opcode::Cons.spec_byte()),
    {
        self.op(Opcode::Cons)
    }

    pub fn out(self) -> (a: Assembler)
        ensures
            a@ == self@.push(Opcode::Out.spec_byte()),
    {
        self.op(Opcode::Out)
    }

    pub fn drop(self) -> (a: Assembler)
        ensures
            a@ == self@.push(Opcode::Drop.spec_byte()),
    {
        self.op(Opcode::Drop)
    }

    pub fn dup(self) -> (a: Assembler)
        ensures
            a@ == self@.push(Opcode::Dup.spec_byte()),
    {
        self.op(Opcode::Dup)
    }

    pub fn eval(self) -> (a: Assembler)
        ensures
            a@ == self@.push(Opcode::Eval.spec_byte()),
    {
        self.op(Opcode::Eval)
    }

    pub fn while_do(self) -> (a: Assembler)
        ensures
            a@ == self@.push(Opcode::WhileDo.spec_byte()),
    {
        self.op(Opcode::WhileDo)
    }

    pub fn do_times(self) -> (a: Assembler)
        ensures
            a@ == self@.push(Opcode::DoTimes.spec_byte()),
    {
        self.op(Opcode::DoTimes)
    }

    pub fn if_then_else(self) -> (a: Assembler)
        ensures
            a@ == self@.push(Opcode::IfThenElse.spec_byte()),
    {
        self.op(Opcode::IfThenElse)
    }

    pub fn this(self) -> (a: Assembler)
        ensures
            a@ == self@.push(Opcode::This.spec_byte()),
    {
        self.op(Opcode::This)
    }

    pub fn halt(self) -> (a: Assembler)
        ensures
            a@ == self@.push(Opcode::Halt.spec_byte()),
    {
        self.op(Opcode::Halt)
    }

    /// The instructions so far, as a blob atom.
    pub fn block(self) -> (r: AtomRef)
        ensures
            r@ == AtomModel::Blob(self@),
    {
        Atom::blob(self.writer.finish())
    }
}

} // verus!
