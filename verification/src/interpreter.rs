//! The interpreter: a stack machine that runs bytecode blobs and evaluates
//! atoms.
//!
//! The machine moves one small step at a time. Where a step needs work
//! that is done outside it (floating-point arithmetic and comparison,
//! turning a float into a repeat count, printing, or writing an atom as
//! text), it stops with a request and waits for the reply.
use vstd::prelude::*;

use crate::atom::{
    bool_bits, spec_atom_eq, spec_pieces, spec_truthful, Atom, AtomError, AtomModel, AtomRef,
    AtomResult, AtomTag, ErrorModel, Opcode, Piece, PieceModel, pieces_view, ONE_BITS, ZERO_BITS,
};
use crate::bytecode::{
    from_le16, law_str_read_after_write, law_u16_read_after_write, le16, le32, spec_fetch_str,
    spec_fetch_str_rest, str_bytes, Readable, Reader, Writable, Writer,
};
use vstd::utf8::encode_utf8;
use crate::env::{entries_map, Env};
use crate::image::{
    entries_bytes, entry_bytes, lemma_deserialize_rest, lemma_entries_bytes_take, magic,
    spec_atom_file, spec_deserialize, spec_load, spec_load_entries, spec_serialize,
};

verus! {

/// A blob being run and the position of its next instruction.
pub struct FrameModel {
    pub code: Seq<u8>,
    pub ip: int,
}

/// What is left to do, innermost last.
pub enum ControlModel {
    /// Evaluate an atom.
    Work(AtomModel),
    /// Run instructions until fewer frames than this remain.
    Exec(nat),
    /// The condition of a loop has run; test its result.
    WhileCheck(AtomModel, AtomModel),
    /// The body of a loop has run; run the condition again.
    WhileLoop(AtomModel, AtomModel),
    /// Run a body this many more times.
    Times(AtomModel, nat),
}

/// Work asked of the caller, with the values it needs.
pub enum RequestModel {
    Arith(Opcode, u64, u64),
    Compare(Opcode, u64, u64),
    Count(u64),
    Print(Seq<PieceModel>),
    Stringify(Seq<PieceModel>),
}

/// The reply the machine waits for.
pub enum PendingModel {
    Arith,
    Compare,
    Count(AtomModel),
    Print,
    Stringify,
}

pub enum ReplyModel {
    Number(u64),
    Truth(bool),
    Count(u32),
    Printed,
    Text(Seq<char>),
}

pub struct VmModel {
    pub stack: Seq<AtomModel>,
    pub ret: Seq<AtomModel>,
    pub env: Map<Seq<char>, AtomModel>,
    pub frames: Seq<FrameModel>,
    pub control: Seq<ControlModel>,
    pub pending: Option<PendingModel>,
}

/// How a step ended.
pub enum Outcome {
    Continue,
    Done,
    Need(RequestModel),
    Failed(ErrorModel),
}

/// The operand that follows an opcode.
pub enum OperandModel {
    Nothing,
    Name(Seq<char>),
    Count(u16),
}

pub open spec fn push(m: VmModel, a: AtomModel) -> VmModel {
    VmModel { stack: m.stack.push(a), ..m }
}

pub open spec fn popped(m: VmModel) -> VmModel {
    VmModel { stack: m.stack.drop_last(), ..m }
}

pub open spec fn push_control(m: VmModel, c: ControlModel) -> VmModel {
    VmModel { control: m.control.push(c), ..m }
}

pub open spec fn pop_control(m: VmModel) -> VmModel {
    VmModel { control: m.control.drop_last(), ..m }
}

pub open spec fn awaiting(m: VmModel, p: PendingModel) -> VmModel {
    VmModel { pending: Some(p), ..m }
}

pub type Effect = (VmModel, Result<Option<RequestModel>, ErrorModel>);

pub open spec fn done(m: VmModel) -> Effect {
    (m, Ok(None))
}

pub open spec fn failed(m: VmModel, e: ErrorModel) -> Effect {
    (m, Err(e))
}

pub open spec fn ask(m: VmModel, p: PendingModel, r: RequestModel) -> Effect {
    (awaiting(m, p), Ok(Some(r)))
}

/// Evaluating an atom: a blob starts running in a frame of its own, with
/// a marker that returns once that frame is done; anything else is
/// evaluated as work.
pub open spec fn eval_atom(m: VmModel, a: AtomModel) -> VmModel {
    match a {
        AtomModel::Blob(code) => {
            let frames = m.frames.push(FrameModel { code, ip: 0 });
            VmModel {
                frames,
                control: m.control.push(ControlModel::Exec(frames.len())),
                ..m
            }
        },
        _ => push_control(m, ControlModel::Work(a)),
    }
}

/// Running an atom from an instruction: a blob starts running in a new
/// frame, under the same run; anything else is evaluated.
pub open spec fn run_atom(m: VmModel, a: AtomModel) -> VmModel {
    match a {
        AtomModel::Blob(code) => VmModel {
            frames: m.frames.push(FrameModel { code, ip: 0 }),
            ..m
        },
        _ => push_control(m, ControlModel::Work(a)),
    }
}

/// One unit of evaluation of an atom: nil does nothing; a number or a
/// string is pushed; a pair evaluates its head, then its tail; a blob runs.
pub open spec fn work_step(m: VmModel, a: AtomModel) -> VmModel {
    match a {
        AtomModel::Nil => m,
        AtomModel::Num(_) => push(m, a),
        AtomModel::Str(_) => push(m, a),
        AtomModel::Cons(h, t) => push_control(
            push_control(m, ControlModel::Work(*t)),
            ControlModel::Work(*h),
        ),
        AtomModel::Blob(_) => eval_atom(m, a),
    }
}

/// Pops a number: the value is popped whether or not it is a number.
pub open spec fn pop_num(m: VmModel) -> (VmModel, Result<u64, ErrorModel>) {
    if m.stack.len() == 0 {
        (m, Err(ErrorModel::StackUnderflow))
    } else {
        match m.stack.last() {
            AtomModel::Num(n) => (popped(m), Ok(n)),
            _ => (popped(m), Err(ErrorModel::TypeMismatch)),
        }
    }
}

pub open spec fn is_arith(op: Opcode) -> bool {
    op == Opcode::Add || op == Opcode::Sub || op == Opcode::Mult || op == Opcode::Div || op
        == Opcode::Mod
}

pub open spec fn is_compare(op: Opcode) -> bool {
    op == Opcode::Lt || op == Opcode::Lte || op == Opcode::Gt || op == Opcode::Gte
}

/// Two numbers are popped, the second operand first, and handed out.
pub open spec fn binary_num(m: VmModel, op: Opcode) -> Effect {
    let (m1, rb) = pop_num(m);
    match rb {
        Err(e) => failed(m1, e),
        Ok(b) => {
            let (m2, ra) = pop_num(m1);
            match ra {
                Err(e) => failed(m2, e),
                Ok(a) => if is_arith(op) {
                    ask(m2, PendingModel::Arith, RequestModel::Arith(op, a, b))
                } else {
                    ask(m2, PendingModel::Compare, RequestModel::Compare(op, a, b))
                },
            }
        },
    }
}

/// Joining two blobs or two strings, the deeper one first.
pub open spec fn join(m: VmModel) -> Effect {
    if m.stack.len() < 2 {
        failed(VmModel { stack: seq![], ..m }, ErrorModel::StackUnderflow)
    } else {
        let b = m.stack.last();
        let a = m.stack[m.stack.len() - 2];
        let m2 = VmModel { stack: m.stack.take(m.stack.len() - 2), ..m };
        match (a, b) {
            (AtomModel::Blob(x), AtomModel::Blob(y)) => done(push(m2, AtomModel::Blob(x + y))),
            (AtomModel::Str(x), AtomModel::Str(y)) => done(push(m2, AtomModel::Str(x + y))),
            _ => failed(m2, ErrorModel::TypeMismatch),
        }
    }
}

/// Moves `n` values, top first, to the return stack; runs out with an
/// underflow after moving what there was.
pub open spec fn to_ret(m: VmModel, n: nat) -> Effect
    decreases n,
{
    if n == 0 {
        done(m)
    } else if m.stack.len() == 0 {
        failed(m, ErrorModel::StackUnderflow)
    } else {
        to_ret(VmModel { stack: m.stack.drop_last(), ret: m.ret.push(m.stack.last()), ..m }, (n - 1) as nat)
    }
}

/// Drops `n` values from the return stack; runs out with an underflow
/// after dropping what there was.
pub open spec fn drop_ret(m: VmModel, n: nat) -> Effect
    decreases n,
{
    if n == 0 {
        done(m)
    } else if m.ret.len() == 0 {
        failed(m, ErrorModel::RetStackUnderflow)
    } else {
        drop_ret(VmModel { ret: m.ret.drop_last(), ..m }, (n - 1) as nat)
    }
}

/// What one instruction does.
pub open spec fn apply_op(m: VmModel, op: Opcode, operand: OperandModel) -> Effect {
    let s = m.stack;
    let n = s.len();
    match op {
        Opcode::Eval => if n == 0 {
            failed(m, ErrorModel::StackUnderflow)
        } else {
            done(run_atom(popped(m), s.last()))
        },
        Opcode::StringCast => if n == 0 {
            failed(m, ErrorModel::StackUnderflow)
        } else {
            ask(popped(m), PendingModel::Stringify, RequestModel::Stringify(spec_pieces(s.last())))
        },
        Opcode::Out => if n == 0 {
            failed(m, ErrorModel::StackUnderflow)
        } else {
            ask(popped(m), PendingModel::Print, RequestModel::Print(spec_pieces(s.last())))
        },
        Opcode::Add | Opcode::Sub | Opcode::Mult | Opcode::Div | Opcode::Mod | Opcode::Lt
        | Opcode::Lte | Opcode::Gt | Opcode::Gte => binary_num(m, op),
        Opcode::Eq => if n < 2 {
            failed(VmModel { stack: seq![], ..m }, ErrorModel::StackUnderflow)
        } else {
            done(
                push(
                    VmModel { stack: s.take(n - 2), ..m },
                    AtomModel::Num(bool_bits(spec_atom_eq(s[n - 2], s[n - 1]))),
                ),
            )
        },
        Opcode::Not => if n == 0 {
            failed(m, ErrorModel::StackUnderflow)
        } else {
            done(push(popped(m), AtomModel::Num(bool_bits(!spec_truthful(s.last())))))
        },
        Opcode::Join => join(m),
        Opcode::Cons => if n < 2 {
            failed(VmModel { stack: seq![], ..m }, ErrorModel::StackUnderflow)
        } else {
            done(
                push(
                    VmModel { stack: s.take(n - 2), ..m },
                    AtomModel::Cons(Box::new(s[n - 1]), Box::new(s[n - 2])),
                ),
            )
        },
        Opcode::Head => if n == 0 {
            failed(m, ErrorModel::StackUnderflow)
        } else {
            match s.last() {
                AtomModel::Cons(h, _) => done(push(popped(m), *h)),
                _ => failed(popped(m), ErrorModel::TypeMismatch),
            }
        },
        Opcode::Tail => if n == 0 {
            failed(m, ErrorModel::StackUnderflow)
        } else {
            match s.last() {
                AtomModel::Cons(_, t) => done(push(popped(m), *t)),
                _ => failed(popped(m), ErrorModel::TypeMismatch),
            }
        },
        Opcode::PushEnv => match operand {
            OperandModel::Name(name) => if m.env.contains_key(name) {
                done(push(m, m.env[name]))
            } else {
                failed(m, ErrorModel::InvalidEnvId(name))
            },
            _ => failed(m, ErrorModel::MalformedBytecode),
        },
        Opcode::IfThenElse => if n < 3 {
            failed(VmModel { stack: seq![], ..m }, ErrorModel::StackUnderflow)
        } else {
            let m3 = VmModel { stack: s.take(n - 3), ..m };
            done(
                run_atom(
                    m3,
                    if spec_truthful(s[n - 3]) {
                        s[n - 2]
                    } else {
                        s[n - 1]
                    },
                ),
            )
        },
        Opcode::IfThen => if n < 2 {
            failed(VmModel { stack: seq![], ..m }, ErrorModel::StackUnderflow)
        } else {
            let m2 = VmModel { stack: s.take(n - 2), ..m };
            done(
                if spec_truthful(s[n - 2]) {
                    run_atom(m2, s[n - 1])
                } else {
                    m2
                },
            )
        },
        Opcode::Dup => if n == 0 {
            failed(m, ErrorModel::StackUnderflow)
        } else {
            done(push(m, s.last()))
        },
        Opcode::Over => if n < 2 {
            failed(m, ErrorModel::StackUnderflow)
        } else {
            done(push(m, s[n - 2]))
        },
        Opcode::Nip => if n < 2 {
            failed(VmModel { stack: seq![], ..m }, ErrorModel::StackUnderflow)
        } else {
            done(push(VmModel { stack: s.take(n - 2), ..m }, s[n - 1]))
        },
        Opcode::Swap => if n < 2 {
            failed(VmModel { stack: seq![], ..m }, ErrorModel::StackUnderflow)
        } else {
            done(push(push(VmModel { stack: s.take(n - 2), ..m }, s[n - 1]), s[n - 2]))
        },
        Opcode::WhileDo => if n < 2 {
            failed(VmModel { stack: seq![], ..m }, ErrorModel::StackUnderflow)
        } else {
            let m2 = VmModel { stack: s.take(n - 2), ..m };
            done(
                eval_from_work(
                    push_control(m2, ControlModel::WhileCheck(s[n - 2], s[n - 1])),
                    s[n - 2],
                ),
            )
        },
        Opcode::DoTimes => {
            let (m1, rt) = pop_num(m);
            match rt {
                Err(e) => failed(m1, e),
                Ok(t) => if m1.stack.len() == 0 {
                    failed(m1, ErrorModel::StackUnderflow)
                } else {
                    ask(
                        popped(m1),
                        PendingModel::Count(m1.stack.last()),
                        RequestModel::Count(t),
                    )
                },
            }
        },
        Opcode::Drop => if n == 0 {
            failed(m, ErrorModel::StackUnderflow)
        } else {
            done(popped(m))
        },
        Opcode::ToRet => match operand {
            OperandModel::Count(c) => to_ret(m, c as nat),
            _ => failed(m, ErrorModel::MalformedBytecode),
        },
        Opcode::FetchRet => match operand {
            OperandModel::Count(c) => if c + 1 > m.ret.len() {
                failed(m, ErrorModel::RetStackUnderflow)
            } else {
                done(push(m, m.ret[m.ret.len() - 1 - c]))
            },
            _ => failed(m, ErrorModel::MalformedBytecode),
        },
        Opcode::DropRet => match operand {
            OperandModel::Count(c) => drop_ret(m, c as nat),
            _ => failed(m, ErrorModel::MalformedBytecode),
        },
        Opcode::This => if m.frames.len() == 0 {
            failed(m, ErrorModel::MalformedBytecode)
        } else {
            done(push(m, AtomModel::Blob(m.frames.last().code)))
        },
        Opcode::Halt => failed(m, ErrorModel::Halt),
    }
}

/// The condition of a loop is evaluated as work.
pub open spec fn eval_from_work(m: VmModel, a: AtomModel) -> VmModel {
    push_control(m, ControlModel::Work(a))
}

/// The operand an opcode takes, read from `rest`, and how many bytes it
/// took.
pub open spec fn decode_operand(op: Opcode, rest: Seq<u8>) -> Result<(OperandModel, nat), ErrorModel> {
    if op == Opcode::PushEnv {
        match spec_fetch_str(rest) {
            Ok(name) => Ok((OperandModel::Name(name), (rest.len() - spec_fetch_str_rest(rest).len()) as nat)),
            Err(e) => Err(e),
        }
    } else if op == Opcode::ToRet || op == Opcode::FetchRet || op == Opcode::DropRet {
        if rest.len() < 2 {
            Err(ErrorModel::MalformedBytecode)
        } else {
            Ok((OperandModel::Count(from_le16(rest[0], rest[1])), 2))
        }
    } else {
        Ok((OperandModel::Nothing, 0))
    }
}

/// One step inside a run that stops when fewer than `target` frames
/// remain: the run returns (also when no frame is left); or a finished
/// frame is dropped; or the next instruction of the innermost frame is
/// decoded and carried out, and on success that frame moves past it.
pub open spec fn exec_step(m: VmModel, target: nat) -> (VmModel, Outcome) {
    if m.frames.len() < target || m.frames.len() == 0 {
        (pop_control(m), Outcome::Continue)
    } else {
        let idx = m.frames.len() - 1;
        let f = m.frames[idx];
        if f.ip >= f.code.len() {
            (VmModel { frames: m.frames.drop_last(), ..m }, Outcome::Continue)
        } else {
            let b = f.code[f.ip];
            match Opcode::spec_from_byte(b) {
                None => (m, Outcome::Failed(ErrorModel::InvalidOpcode(b))),
                Some(op) => match decode_operand(op, f.code.skip(f.ip + 1)) {
                    Err(e) => (m, Outcome::Failed(e)),
                    Ok((operand, len)) => {
                        let (m2, r) = apply_op(m, op, operand);
                        match r {
                            Err(e) => (m2, Outcome::Failed(e)),
                            Ok(req) => {
                                let m3 = VmModel {
                                    frames: m2.frames.update(
                                        idx,
                                        FrameModel { code: f.code, ip: f.ip + 1 + len },
                                    ),
                                    ..m2
                                };
                                (m3, match req {
                                    None => Outcome::Continue,
                                    Some(q) => Outcome::Need(q),
                                })
                            },
                        }
                    },
                },
            }
        }
    }
}

/// One step of the machine, by what is innermost on its control stack.
pub open spec fn spec_step(m: VmModel) -> (VmModel, Outcome) {
    if m.control.len() == 0 {
        (m, Outcome::Done)
    } else {
        match m.control.last() {
            ControlModel::Work(a) => (work_step(pop_control(m), a), Outcome::Continue),
            ControlModel::Exec(target) => exec_step(m, target),
            ControlModel::WhileCheck(c, b) => if m.stack.len() == 0 {
                (m, Outcome::Failed(ErrorModel::StackUnderflow))
            } else if spec_truthful(m.stack.last()) {
                (
                    push_control(
                        push_control(pop_control(popped(m)), ControlModel::WhileLoop(c, b)),
                        ControlModel::Work(b),
                    ),
                    Outcome::Continue,
                )
            } else {
                (pop_control(popped(m)), Outcome::Continue)
            },
            ControlModel::WhileLoop(c, b) => (
                push_control(
                    push_control(pop_control(m), ControlModel::WhileCheck(c, b)),
                    ControlModel::Work(c),
                ),
                Outcome::Continue,
            ),
            ControlModel::Times(b, k) => if k == 0 {
                (pop_control(m), Outcome::Continue)
            } else {
                (
                    push_control(
                        push_control(pop_control(m), ControlModel::Times(b, (k - 1) as nat)),
                        ControlModel::Work(b),
                    ),
                    Outcome::Continue,
                )
            },
        }
    }
}

/// The machine after a reply: a result is pushed (a truth value as `1.0`
/// or `0.0`), or a body is set to run the given number of times.
pub open spec fn spec_resume(m: VmModel, r: ReplyModel) -> VmModel {
    let m0 = VmModel { pending: None, ..m };
    match (m.pending, r) {
        (Some(PendingModel::Arith), ReplyModel::Number(n)) => push(m0, AtomModel::Num(n)),
        (Some(PendingModel::Compare), ReplyModel::Truth(t)) => push(m0, AtomModel::Num(bool_bits(t))),
        (Some(PendingModel::Count(body)), ReplyModel::Count(k)) => push_control(
            m0,
            ControlModel::Times(body, k as nat),
        ),
        (Some(PendingModel::Stringify), ReplyModel::Text(s)) => push(m0, AtomModel::Str(s)),
        _ => m0,
    }
}

} // verus!

verus! {

/// A blob being run and the position of its next instruction.
struct ExecFrame {
    bytecode_atom: AtomRef,
    ip: usize,
}

spec fn frame_view(f: ExecFrame) -> FrameModel {
    FrameModel {
        code: match f.bytecode_atom@ {
            AtomModel::Blob(c) => c,
            _ => seq![],
        },
        ip: f.ip as int,
    }
}

impl ExecFrame {
    fn new(bytecode_atom: AtomRef) -> (f: ExecFrame)
        ensures
            f.bytecode_atom == bytecode_atom,
            f.ip == 0,
    {
        Self { bytecode_atom, ip: 0 }
    }
}

/// What is left to do, innermost last.
pub enum Control {
    Work(AtomRef),
    Exec(usize),
    WhileCheck(AtomRef, AtomRef),
    WhileLoop(AtomRef, AtomRef),
    Times(AtomRef, u32),
}

impl View for Control {
    type V = ControlModel;

    open spec fn view(&self) -> ControlModel {
        match self {
            Control::Work(a) => ControlModel::Work(a@),
            Control::Exec(n) => ControlModel::Exec(*n as nat),
            Control::WhileCheck(c, b) => ControlModel::WhileCheck(c@, b@),
            Control::WhileLoop(c, b) => ControlModel::WhileLoop(c@, b@),
            Control::Times(b, k) => ControlModel::Times(b@, *k as nat),
        }
    }
}

/// Work the machine asks of its caller.
#[derive(Debug)]
pub enum Request {
    /// Compute `a op b` on the floats with these bits, and reply with the
    /// bits of the result.
    Arith(Opcode, u64, u64),
    /// Compare the floats with these bits by `op`, and reply with the truth.
    Compare(Opcode, u64, u64),
    /// Reply with the float with these bits converted to a repeat count, as
    /// a saturating cast to `u32` does.
    Count(u64),
    /// Print the pieces, then reply `Printed`.
    Print(Vec<Piece>),
    /// Reply with the text of the pieces.
    Stringify(Vec<Piece>),
}

impl View for Request {
    type V = RequestModel;

    open spec fn view(&self) -> RequestModel {
        match self {
            Request::Arith(op, a, b) => RequestModel::Arith(*op, *a, *b),
            Request::Compare(op, a, b) => RequestModel::Compare(*op, *a, *b),
            Request::Count(t) => RequestModel::Count(*t),
            Request::Print(v) => RequestModel::Print(pieces_view(v@)),
            Request::Stringify(v) => RequestModel::Stringify(pieces_view(v@)),
        }
    }
}

/// A caller's answer to a request.
#[derive(Debug)]
pub enum Reply {
    Number(u64),
    Truth(bool),
    Count(u32),
    Printed,
    Text(String),
}

impl View for Reply {
    type V = ReplyModel;

    open spec fn view(&self) -> ReplyModel {
        match self {
            Reply::Number(n) => ReplyModel::Number(*n),
            Reply::Truth(t) => ReplyModel::Truth(*t),
            Reply::Count(k) => ReplyModel::Count(*k),
            Reply::Printed => ReplyModel::Printed,
            Reply::Text(s) => ReplyModel::Text(s@),
        }
    }
}

enum Pending {
    Arith,
    Compare,
    Count(AtomRef),
    Print,
    Stringify,
}

spec fn pending_view(p: Option<Pending>) -> Option<PendingModel> {
    match p {
        None => None,
        Some(Pending::Arith) => Some(PendingModel::Arith),
        Some(Pending::Compare) => Some(PendingModel::Compare),
        Some(Pending::Count(b)) => Some(PendingModel::Count(b@)),
        Some(Pending::Print) => Some(PendingModel::Print),
        Some(Pending::Stringify) => Some(PendingModel::Stringify),
    }
}

/// How a step of the machine ended.
#[derive(Debug)]
pub enum Step {
    /// There is more to do.
    Continue,
    /// Nothing is left to do.
    Done,
    /// The machine waits for the reply to this request.
    Need(Request),
}

pub open spec fn outcome_of(r: AtomResult<Step>) -> Outcome {
    match r {
        Ok(Step::Continue) => Outcome::Continue,
        Ok(Step::Done) => Outcome::Done,
        Ok(Step::Need(q)) => Outcome::Need(q@),
        Err(e) => Outcome::Failed(e@),
    }
}

pub open spec fn effect_of(r: AtomResult<Option<Request>>) -> Result<Option<RequestModel>, ErrorModel> {
    match r {
        Ok(None) => Ok(None),
        Ok(Some(q)) => Ok(Some(q@)),
        Err(e) => Err(e@),
    }
}

pub open spec fn atoms(v: Seq<AtomRef>) -> Seq<AtomModel> {
    v.map_values(|a: AtomRef| a@)
}

/// The operand that follows an opcode.
pub enum Operand {
    Nothing,
    Name(String),
    Count(u16),
}

impl View for Operand {
    type V = OperandModel;

    open spec fn view(&self) -> OperandModel {
        match self {
            Operand::Nothing => OperandModel::Nothing,
            Operand::Name(s) => OperandModel::Name(s@),
            Operand::Count(c) => OperandModel::Count(*c),
        }
    }
}

/// The machine: a data stack, a return stack, named atoms, the frames of
/// the blobs being run, and what is left to do.
pub struct Interpreter {
    pub stack: Vec<AtomRef>,
    pub ret_stack: Vec<AtomRef>,
    pub env: Env,
    exec_stack: Vec<ExecFrame>,
    control: Vec<Control>,
    pending: Option<Pending>,
}

impl Interpreter {
    pub closed spec fn model(&self) -> VmModel {
        VmModel {
            stack: atoms(self.stack@),
            ret: atoms(self.ret_stack@),
            env: self.env.contents(),
            frames: self.exec_stack@.map_values(|f: ExecFrame| frame_view(f)),
            control: self.control@.map_values(|c: Control| c@),
            pending: pending_view(self.pending),
        }
    }

    /// The bound names and their atoms, in the order the names were first
    /// bound.
    pub closed spec fn entries(&self) -> Seq<(Seq<char>, AtomModel)> {
        self.env.entries()
    }

    /// Every frame runs a blob.
    pub closed spec fn wf(&self) -> bool {
        forall|i: int| 0 <= i < self.exec_stack@.len() ==> #[trigger] self.exec_stack@[i].bytecode_atom@ is Blob
    }

    pub fn new() -> (vm: Interpreter)
        ensures
            vm.wf(),
            vm.model() == (VmModel {
                stack: seq![],
                ret: seq![],
                env: Map::empty(),
                frames: seq![],
                control: seq![],
                pending: None,
            }),
    {
        let vm = Self {
            stack: Vec::new(),
            ret_stack: Vec::new(),
            env: Env::new(),
            exec_stack: Vec::new(),
            control: Vec::new(),
            pending: None,
        };
        assert(vm.model().stack =~= Seq::<AtomModel>::empty());
        assert(vm.model().ret =~= Seq::<AtomModel>::empty());
        assert(vm.model().frames =~= Seq::<FrameModel>::empty());
        assert(vm.model().control =~= Seq::<ControlModel>::empty());
        assert(vm.model().env =~= Map::<Seq<char>, AtomModel>::empty());
        vm
    }

    /// Binds a name to an atom.
    pub fn register(&mut self, id: &str, a: AtomRef)
        requires
            old(self).wf(),
        ensures
            final(self).wf(),
            final(self).model() == (VmModel { env: old(self).model().env.insert(id@, a@), ..old(self).model() }),
    {
        let mut key = String::new();
        key.append(id);
        assert(key@ =~= id@);
        self.env.insert(key, a);
    }

    /// Binds every name of `env` to its atom, later entries last.
    pub fn import(&mut self, env: Env)
        requires
            old(self).wf(),
        ensures
            final(self).wf(),
            final(self).model() == (VmModel { env: old(self).model().env.union_prefer_right(env.contents()), ..old(self).model() }),
    {
        let mut i: usize = 0;
        proof {
            assert(env.entries().take(0) =~= Seq::<(Seq<char>, AtomModel)>::empty());
            assert(old(self).model().env.union_prefer_right(crate::env::entries_map(env.entries().take(0))) =~= old(self).model().env);
        }
        while i < env.len()
            invariant
                i <= env.entries().len(),
                self.wf(),
                self.model() == (VmModel { env: old(self).model().env.union_prefer_right(crate::env::entries_map(env.entries().take(i as int))), ..old(self).model() }),
            decreases env.entries().len() - i,
        {
            let k = env.key_at(i).clone();
            let v = env.value_at(i).clone();
            let ghost before = self.model().env;
            self.env.insert(k, v);
            proof {
                let t = env.entries().take(i + 1);
                assert(t.drop_last() =~= env.entries().take(i as int));
                assert(self.model().env =~= old(self).model().env.union_prefer_right(crate::env::entries_map(t)));
            }
            i = i + 1;
        }
        proof {
            assert(env.entries().take(i as int) =~= env.entries());
        }
    }
}

} // verus!

verus! {

/// The frames below the old top are left as they were.
spec fn frames_kept(before: Seq<ExecFrame>, after: Seq<ExecFrame>) -> bool {
    before.len() <= after.len() && forall|i: int| 0 <= i < before.len() ==> after[i] == before[i]
}

proof fn lemma_atoms_push(v: Seq<AtomRef>, a: AtomRef)
    ensures
        atoms(v.push(a)) == atoms(v).push(a@),
{
    assert(atoms(v.push(a)) =~= atoms(v).push(a@));
}

proof fn lemma_atoms_drop_last(v: Seq<AtomRef>)
    requires
        v.len() > 0,
    ensures
        atoms(v.drop_last()) == atoms(v).drop_last(),
        atoms(v).last() == v.last()@,
{
    assert(atoms(v.drop_last()) =~= atoms(v).drop_last());
}

impl Interpreter {
    fn pop(&mut self) -> (r: AtomResult<AtomRef>)
        ensures
            final(self).exec_stack@ == old(self).exec_stack@,
            old(self).model().stack.len() == 0 ==> (r matches Err(e) && e@
                == ErrorModel::StackUnderflow && final(self).model() == old(self).model()),
            old(self).model().stack.len() > 0 ==> (r matches Ok(a) && a@ == old(self).model().stack.last()
                && final(self).model() == popped(old(self).model())),
    {
        match self.stack.pop() {
            Some(a) => {
                proof {
                    lemma_atoms_drop_last(old(self).stack@);
                }
                Ok(a)
            },
            None => Err(AtomError::StackUnderflow),
        }
    }

    fn push_atom(&mut self, a: AtomRef)
        ensures
            final(self).exec_stack@ == old(self).exec_stack@,
            final(self).model() == push(old(self).model(), a@),
    {
        proof {
            lemma_atoms_push(self.stack@, a);
        }
        self.stack.push(a);
    }

    fn pop_num(&mut self) -> (r: AtomResult<u64>)
        ensures
            final(self).exec_stack@ == old(self).exec_stack@,
            (final(self).model(), match r {
                Ok(n) => Ok(n),
                Err(e) => Err(e@),
            }) == pop_num(old(self).model()),
    {
        let a = self.pop()?;
        match &*a {
            Atom::Num(n) => Ok(*n),
            _ => Err(AtomError::TypeMismatch),
        }
    }

    fn push_control(&mut self, c: Control)
        ensures
            final(self).exec_stack@ == old(self).exec_stack@,
            final(self).model() == push_control(old(self).model(), c@),
    {
        let ghost before = self.model();
        self.control.push(c);
        assert(self.model().control =~= before.control.push(c@));
    }

    /// Runs an atom from an instruction: a blob in a new frame of the
    /// current run, anything else as work.
    fn run(&mut self, atom: AtomRef)
        requires
            old(self).wf(),
        ensures
            final(self).wf(),
            frames_kept(old(self).exec_stack@, final(self).exec_stack@),
            final(self).model() == run_atom(old(self).model(), atom@),
    {
        match &*atom {
            Atom::Blob(_) => {
                let ghost before = self.model();
                self.exec_stack.push(ExecFrame::new(atom));
                proof {
                    assert(self.model().frames =~= before.frames.push(FrameModel { code: match atom@ { AtomModel::Blob(c) => c, _ => seq![] }, ip: 0 }));
                    assert forall|i: int| 0 <= i < self.exec_stack@.len() implies #[trigger] self.exec_stack@[i].bytecode_atom@ is Blob by {
                        if i < old(self).exec_stack@.len() {
                            assert(self.exec_stack@[i] == old(self).exec_stack@[i]);
                        }
                    }
                }
            },
            _ => {
                self.push_control(Control::Work(atom));
            },
        }
    }
}

} // verus!

verus! {

pub open spec fn with_stack(m: VmModel, s: Seq<AtomModel>) -> VmModel {
    VmModel { stack: s, ..m }
}

impl Interpreter {
    /// Pops the top value and the one under it; when there are fewer than
    /// two, what there was is popped and the result is an underflow.
    fn pop2(&mut self) -> (r: AtomResult<(AtomRef, AtomRef)>)
        ensures
            final(self).exec_stack@ == old(self).exec_stack@,
            ({
                let m = old(self).model();
                let n = m.stack.len();
                if n < 2 {
                    r matches Err(e) && e@ == ErrorModel::StackUnderflow && final(self).model()
                        == with_stack(m, seq![])
                } else {
                    r matches Ok((b, a)) && b@ == m.stack[n - 1] && a@ == m.stack[n - 2]
                        && final(self).model() == with_stack(m, m.stack.take(n - 2))
                }
            }),
    {
        let ghost m = self.model();
        let b = match self.pop() {
            Ok(x) => x,
            Err(e) => {
                assert(m.stack =~= seq![]);
                assert(self.model() == with_stack(m, seq![]));
                return Err(e);
            },
        };
        let a = match self.pop() {
            Ok(x) => x,
            Err(e) => {
                assert(m.stack.drop_last() =~= seq![]);
                return Err(e);
            },
        };
        assert(m.stack.drop_last().drop_last() =~= m.stack.take(m.stack.len() - 2));
        Ok((b, a))
    }

    /// Pops three values, the top first; when there are fewer, what there
    /// was is popped and the result is an underflow.
    fn pop3(&mut self) -> (r: AtomResult<(AtomRef, AtomRef, AtomRef)>)
        ensures
            final(self).exec_stack@ == old(self).exec_stack@,
            ({
                let m = old(self).model();
                let n = m.stack.len();
                if n < 3 {
                    r matches Err(e) && e@ == ErrorModel::StackUnderflow && final(self).model()
                        == with_stack(m, seq![])
                } else {
                    r matches Ok((c, b, a)) && c@ == m.stack[n - 1] && b@ == m.stack[n - 2] && a@
                        == m.stack[n - 3] && final(self).model() == with_stack(m, m.stack.take(n - 3))
                }
            }),
    {
        let ghost m = self.model();
        let (c, b) = self.pop2()?;
        let a = match self.pop() {
            Ok(x) => x,
            Err(e) => {
                assert(m.stack.take(m.stack.len() - 2) =~= seq![]);
                return Err(e);
            },
        };
        assert(m.stack.take(m.stack.len() - 2).drop_last() =~= m.stack.take(m.stack.len() - 3));
        Ok((c, b, a))
    }
}

} // verus!

verus! {

pub open spec fn is_stack_op(op: Opcode) -> bool {
    op == Opcode::Eq || op == Opcode::Not || op == Opcode::Join || op == Opcode::Cons || op
        == Opcode::Head || op == Opcode::Tail || op == Opcode::Dup || op == Opcode::Over || op
        == Opcode::Nip || op == Opcode::Swap || op == Opcode::Drop
}

impl Interpreter {
    fn stack_op(&mut self, op: Opcode) -> (r: AtomResult<Option<Request>>)
        requires
            is_stack_op(op),
        ensures
            final(self).exec_stack@ == old(self).exec_stack@,
            (final(self).model(), effect_of(r)) == apply_op(old(self).model(), op, OperandModel::Nothing),
    {
        let ghost m = self.model();
        match op {
            Opcode::Eq => {
                let (b, a) = self.pop2()?;
                self.push_atom(Atom::boolean(a.equals(&b)));
                Ok(None)
            },
            Opcode::Not => {
                let a = self.pop()?;
                self.push_atom(Atom::boolean(!a.truthful()));
                Ok(None)
            },
            Opcode::Join => {
                let (b, a) = self.pop2()?;
                match (&*a, &*b) {
                    (Atom::Blob(x), Atom::Blob(y)) => {
                        let mut joined: Vec<u8> = Vec::new();
                        crate::bytecode::push_bytes(&mut joined, x.as_slice());
                        crate::bytecode::push_bytes(&mut joined, y.as_slice());
                        assert(joined@ =~= x@ + y@);
                        self.push_atom(Atom::blob(joined));
                        Ok(None)
                    },
                    (Atom::Str(x), Atom::Str(y)) => {
                        let mut joined = String::new();
                        joined.append(x.as_str());
                        joined.append(y.as_str());
                        assert(joined@ =~= x@ + y@);
                        self.push_atom(Atom::string(joined));
                        Ok(None)
                    },
                    _ => Err(AtomError::TypeMismatch),
                }
            },
            Opcode::Cons => {
                let (b, a) = self.pop2()?;
                self.push_atom(Atom::cons(b, a));
                Ok(None)
            },
            Opcode::Head => {
                let a = self.pop()?;
                match &*a {
                    Atom::Cons(head, _) => {
                        self.push_atom(head.clone());
                        Ok(None)
                    },
                    _ => Err(AtomError::TypeMismatch),
                }
            },
            Opcode::Tail => {
                let a = self.pop()?;
                match &*a {
                    Atom::Cons(_, tail) => {
                        self.push_atom(tail.clone());
                        Ok(None)
                    },
                    _ => Err(AtomError::TypeMismatch),
                }
            },
            Opcode::Dup => {
                let len = self.stack.len();
                if len == 0 {
                    return Err(AtomError::StackUnderflow);
                }
                let top = self.stack[len - 1].clone();
                self.push_atom(top);
                Ok(None)
            },
            Opcode::Over => {
                let len = self.stack.len();
                if len < 2 {
                    return Err(AtomError::StackUnderflow);
                }
                let a = self.stack[len - 2].clone();
                self.push_atom(a);
                Ok(None)
            },
            Opcode::Nip => {
                let (b, _) = self.pop2()?;
                self.push_atom(b);
                Ok(None)
            },
            Opcode::Swap => {
                let (b, a) = self.pop2()?;
                self.push_atom(b);
                self.push_atom(a);
                Ok(None)
            },
            _ => {
                self.pop()?;
                Ok(None)
            },
        }
    }
}

} // verus!

verus! {

pub open spec fn is_flow_op(op: Opcode) -> bool {
    op == Opcode::Eval || op == Opcode::IfThenElse || op == Opcode::IfThen || op
        == Opcode::WhileDo || op == Opcode::DoTimes || op == Opcode::This || op == Opcode::Halt
}

pub open spec fn is_request_op(op: Opcode) -> bool {
    op == Opcode::StringCast || op == Opcode::Out || is_arith(op) || is_compare(op)
}

impl Interpreter {
    fn flow_op(&mut self, op: Opcode) -> (r: AtomResult<Option<Request>>)
        requires
            old(self).wf(),
            is_flow_op(op),
        ensures
            final(self).wf(),
            frames_kept(old(self).exec_stack@, final(self).exec_stack@),
            (final(self).model(), effect_of(r)) == apply_op(old(self).model(), op, OperandModel::Nothing),
    {
        match op {
            Opcode::Eval => {
                let a = self.pop()?;
                self.run(a);
                Ok(None)
            },
            Opcode::IfThenElse => {
                let (else_body, then_body, cond) = self.pop3()?;
                let target = if cond.truthful() {
                    then_body
                } else {
                    else_body
                };
                self.run(target);
                Ok(None)
            },
            Opcode::IfThen => {
                let (then_body, cond) = self.pop2()?;
                if cond.truthful() {
                    self.run(then_body);
                }
                Ok(None)
            },
            Opcode::WhileDo => {
                let (body, cond) = self.pop2()?;
                self.push_control(Control::WhileCheck(cond.clone(), body));
                self.push_control(Control::Work(cond));
                Ok(None)
            },
            Opcode::DoTimes => {
                let times = self.pop_num()?;
                let body = self.pop()?;
                self.pending = Some(Pending::Count(body));
                Ok(Some(Request::Count(times)))
            },
            Opcode::This => {
                let len = self.exec_stack.len();
                if len == 0 {
                    return Err(AtomError::MalformedBytecode);
                }
                let this = self.exec_stack[len - 1].bytecode_atom.clone();
                proof {
                    assert(self.exec_stack@[len - 1].bytecode_atom@ is Blob);
                    assert(self.model().frames.last() == frame_view(self.exec_stack@[len - 1]));
                }
                self.push_atom(this);
                Ok(None)
            },
            _ => Err(AtomError::Halt),
        }
    }

    fn request_op(&mut self, op: Opcode) -> (r: AtomResult<Option<Request>>)
        requires
            is_request_op(op),
        ensures
            final(self).exec_stack@ == old(self).exec_stack@,
            (final(self).model(), effect_of(r)) == apply_op(old(self).model(), op, OperandModel::Nothing),
    {
        match op {
            Opcode::StringCast => {
                let a = self.pop()?;
                self.pending = Some(Pending::Stringify);
                Ok(Some(Request::Stringify(a.pieces())))
            },
            Opcode::Out => {
                let a = self.pop()?;
                self.pending = Some(Pending::Print);
                Ok(Some(Request::Print(a.pieces())))
            },
            _ => {
                let b = self.pop_num()?;
                let a = self.pop_num()?;
                if op == Opcode::Add || op == Opcode::Sub || op == Opcode::Mult || op == Opcode::Div
                    || op == Opcode::Mod {
                    self.pending = Some(Pending::Arith);
                    Ok(Some(Request::Arith(op, a, b)))
                } else {
                    self.pending = Some(Pending::Compare);
                    Ok(Some(Request::Compare(op, a, b)))
                }
            },
        }
    }

    /// Moves `n` values, top first, to the return stack.
    fn move_to_ret(&mut self, n: u16) -> (r: AtomResult<Option<Request>>)
        ensures
            final(self).exec_stack@ == old(self).exec_stack@,
            (final(self).model(), effect_of(r)) == to_ret(old(self).model(), n as nat),
    {
        let ghost m0 = self.model();
        let mut i: u16 = 0;
        while i < n
            invariant
                i <= n,
                m0 == old(self).model(),
                self.exec_stack@ == old(self).exec_stack@,
                to_ret(m0, n as nat) == to_ret(self.model(), (n - i) as nat),
            decreases n - i,
        {
            let ghost before = self.model();
            let v = self.pop()?;
            proof {
                lemma_atoms_push(self.ret_stack@, v);
            }
            self.ret_stack.push(v);
            assert(self.model() == VmModel { stack: before.stack.drop_last(), ret: before.ret.push(before.stack.last()), ..before });
            i = i + 1;
        }
        Ok(None)
    }

    /// Drops `n` values from the return stack.
    fn drop_from_ret(&mut self, n: u16) -> (r: AtomResult<Option<Request>>)
        ensures
            final(self).exec_stack@ == old(self).exec_stack@,
            (final(self).model(), effect_of(r)) == drop_ret(old(self).model(), n as nat),
    {
        let ghost m0 = self.model();
        let mut i: u16 = 0;
        while i < n
            invariant
                i <= n,
                m0 == old(self).model(),
                self.exec_stack@ == old(self).exec_stack@,
                drop_ret(m0, n as nat) == drop_ret(self.model(), (n - i) as nat),
            decreases n - i,
        {
            let ghost before = self.model();
            let ghost rs = self.ret_stack@;
            match self.ret_stack.pop() {
                Some(_) => {
                    proof {
                        lemma_atoms_drop_last(rs);
                        assert(self.model() == VmModel { ret: before.ret.drop_last(), ..before });
                    }
                },
                None => {
                    return Err(AtomError::RetStackUnderflow);
                },
            }
            i = i + 1;
        }
        Ok(None)
    }

    fn operand_op(&mut self, op: Opcode, operand: Operand) -> (r: AtomResult<Option<Request>>)
        requires
            op == Opcode::PushEnv || op == Opcode::ToRet || op == Opcode::FetchRet || op
                == Opcode::DropRet,
        ensures
            final(self).exec_stack@ == old(self).exec_stack@,
            (final(self).model(), effect_of(r)) == apply_op(old(self).model(), op, operand@),
    {
        match (op, operand) {
            (Opcode::PushEnv, Operand::Name(name)) => {
                match self.env.get(name.as_str()) {
                    Some(a) => {
                        let a = a.clone();
                        self.push_atom(a);
                        Ok(None)
                    },
                    None => Err(AtomError::InvalidEnvId(name)),
                }
            },
            (Opcode::ToRet, Operand::Count(n)) => self.move_to_ret(n),
            (Opcode::FetchRet, Operand::Count(idx)) => {
                let len = self.ret_stack.len();
                if (idx as usize) + 1 > len {
                    return Err(AtomError::RetStackUnderflow);
                }
                let v = self.ret_stack[len - 1 - idx as usize].clone();
                self.push_atom(v);
                Ok(None)
            },
            (Opcode::DropRet, Operand::Count(n)) => self.drop_from_ret(n),
            _ => Err(AtomError::MalformedBytecode),
        }
    }
}

} // verus!

verus! {

/// Decodes the instruction at `ip` of `code`: its opcode, its operand, and
/// how many bytes the operand takes.
fn decode(code: &[u8], ip: usize) -> (r: AtomResult<(Opcode, Operand, usize)>)
    requires
        ip < code@.len(),
    ensures
        match Opcode::spec_from_byte(code@[ip as int]) {
            None => r matches Err(e) && e@ == ErrorModel::InvalidOpcode(code@[ip as int]),
            Some(op) => match decode_operand(op, code@.skip(ip + 1)) {
                Err(m) => r matches Err(e) && e@ == m,
                Ok((operand, len)) => r matches Ok((o, x, n)) && o == op && x@ == operand && n
                    == len,
            },
        },
{
    let b = code[ip];
    let op = Opcode::try_from_byte(b)?;
    let (_, rest) = code.split_at(ip + 1);
    assert(rest@ =~= code@.skip(ip + 1));
    let mut reader = Reader::new(rest);
    match op {
        Opcode::PushEnv => {
            let name = reader.fetch_str()?;
            let used = rest.len() - reader.len();
            Ok((op, Operand::Name(name), used))
        },
        Opcode::ToRet | Opcode::FetchRet | Opcode::DropRet => {
            let n = reader.fetch::<u16>()?;
            Ok((op, Operand::Count(n), 2))
        },
        _ => Ok((op, Operand::Nothing, 0)),
    }
}

impl Interpreter {
    /// Carries out one instruction with its operand.
    fn execute_op(&mut self, op: Opcode, operand: Operand) -> (r: AtomResult<Option<Request>>)
        requires
            old(self).wf(),
        ensures
            final(self).wf(),
            frames_kept(old(self).exec_stack@, final(self).exec_stack@),
            (final(self).model(), effect_of(r)) == apply_op(old(self).model(), op, operand@),
    {
        match op {
            Opcode::PushEnv | Opcode::ToRet | Opcode::FetchRet | Opcode::DropRet => self.operand_op(
                op,
                operand,
            ),
            Opcode::Eval | Opcode::IfThenElse | Opcode::IfThen | Opcode::WhileDo
            | Opcode::DoTimes | Opcode::This | Opcode::Halt => self.flow_op(op),
            Opcode::StringCast | Opcode::Out | Opcode::Add | Opcode::Sub | Opcode::Mult
            | Opcode::Div | Opcode::Mod | Opcode::Lt | Opcode::Lte | Opcode::Gt
            | Opcode::Gte => self.request_op(op),
            _ => self.stack_op(op),
        }
    }

    fn pop_control(&mut self)
        requires
            old(self).control@.len() > 0,
        ensures
            final(self).exec_stack@ == old(self).exec_stack@,
            final(self).model() == pop_control(old(self).model()),
    {
        let ghost before = self.model();
        self.control.pop();
        assert(self.model().control =~= before.control.drop_last());
    }

    /// One unit of evaluation of an atom.
    fn work(&mut self, a: AtomRef)
        requires
            old(self).wf(),
        ensures
            final(self).wf(),
            final(self).model() == work_step(old(self).model(), a@),
    {
        match &*a {
            Atom::Nil => {},
            Atom::Num(_) | Atom::Str(_) => {
                self.push_atom(a);
            },
            Atom::Cons(head, tail) => {
                self.push_control(Control::Work(tail.clone()));
                self.push_control(Control::Work(head.clone()));
            },
            Atom::Blob(_) => {
                let ghost before = self.model();
                self.exec_stack.push(ExecFrame::new(a.clone()));
                proof {
                    assert(self.model().frames =~= before.frames.push(
                        FrameModel { code: match a@ { AtomModel::Blob(c) => c, _ => seq![] }, ip: 0 },
                    ));
                    assert forall|i: int| 0 <= i < self.exec_stack@.len() implies #[trigger] self.exec_stack@[i].bytecode_atom@ is Blob by {
                        if i < old(self).exec_stack@.len() {
                            assert(self.exec_stack@[i] == old(self).exec_stack@[i]);
                        }
                    }
                }
                let n = self.exec_stack.len();
                self.push_control(Control::Exec(n));
            },
        }
    }

    /// One step of a run that stops when fewer than `target` frames remain.
    fn exec_step(&mut self, target: usize) -> (r: AtomResult<Step>)
        requires
            old(self).wf(),
            old(self).control@.len() > 0,
        ensures
            final(self).wf(),
            (final(self).model(), outcome_of(r)) == exec_step(old(self).model(), target as nat),
    {
        let flen = self.exec_stack.len();
        if flen < target || flen == 0 {
            self.pop_control();
            return Ok(Step::Continue);
        }
        let idx = flen - 1;
        let code_atom = self.exec_stack[idx].bytecode_atom.clone();
        let ip = self.exec_stack[idx].ip;
        let ghost m = self.model();
        proof {
            assert(self.exec_stack@[idx as int].bytecode_atom@ is Blob);
            assert(m.frames[idx as int] == frame_view(self.exec_stack@[idx as int]));
        }
        match &*code_atom {
            Atom::Blob(bytes) => {
                if ip >= bytes.len() {
                    self.exec_stack.pop();
                    assert(self.model().frames =~= m.frames.drop_last());
                    return Ok(Step::Continue);
                }
                let (op, operand, len) = decode(bytes.as_slice(), ip)?;
                let req = self.execute_op(op, operand)?;
                let ghost m2 = self.model();
                let ghost old_frames = self.exec_stack@;
                proof {
                    if op == Opcode::PushEnv {
                        let rest = bytes@.skip(ip + 1);
                        assert(spec_fetch_str_rest(rest).len() <= rest.len());
                    }
                }
                let next = ip + 1 + len;
                self.exec_stack.set(idx, ExecFrame { bytecode_atom: code_atom.clone(), ip: next });
                proof {
                    assert(self.model().frames =~= m2.frames.update(
                        idx as int,
                        FrameModel { code: bytes@, ip: next as int },
                    ));
                    assert forall|i: int| 0 <= i < self.exec_stack@.len() implies #[trigger] self.exec_stack@[i].bytecode_atom@ is Blob by {
                        if i != idx {
                            assert(self.exec_stack@[i] == old_frames[i]);
                        }
                    }
                }
                match req {
                    None => Ok(Step::Continue),
                    Some(q) => Ok(Step::Need(q)),
                }
            },
            _ => {
                proof {
                    assert(false);
                }
                Err(AtomError::MalformedBytecode)
            },
        }
    }
}

} // verus!

verus! {

impl Interpreter {
    /// Carries out one step of what is left to do. It is not called while
    /// the machine waits for a reply.
    pub fn step(&mut self) -> (r: AtomResult<Step>)
        requires
            old(self).wf(),
            old(self).model().pending is None,
        ensures
            final(self).wf(),
            (final(self).model(), outcome_of(r)) == spec_step(old(self).model()),
    {
        let ghost m = self.model();
        let c = match self.control.pop() {
            Some(c) => c,
            None => {
                return Ok(Step::Done);
            },
        };
        proof {
            assert(self.model().control =~= m.control.drop_last());
            assert(self.model() == pop_control(m));
            assert(c@ == m.control.last());
        }
        match c {
            Control::Work(a) => {
                self.work(a);
                Ok(Step::Continue)
            },
            Control::Exec(target) => {
                self.push_control(Control::Exec(target));
                assert(self.model().control =~= m.control);
                self.exec_step(target)
            },
            Control::WhileCheck(cond, body) => {
                if self.stack.len() == 0 {
                    self.push_control(Control::WhileCheck(cond, body));
                    assert(self.model().control =~= m.control);
                    return Err(AtomError::StackUnderflow);
                }
                let v = self.pop()?;
                if v.truthful() {
                    self.push_control(Control::WhileLoop(cond, body.clone()));
                    self.push_control(Control::Work(body));
                }
                Ok(Step::Continue)
            },
            Control::WhileLoop(cond, body) => {
                self.push_control(Control::WhileCheck(cond.clone(), body));
                self.push_control(Control::Work(cond));
                Ok(Step::Continue)
            },
            Control::Times(body, k) => {
                if k > 0 {
                    self.push_control(Control::Times(body.clone(), k - 1));
                    self.push_control(Control::Work(body));
                }
                Ok(Step::Continue)
            },
        }
    }

    /// Takes the caller's reply to the last request: a number or a truth
    /// value (as `1.0` or `0.0`) or a text is pushed, or a body is set to
    /// run the given number of times. A reply that does not answer what
    /// the machine waits for is dropped.
    pub fn resume(&mut self, reply: Reply)
        requires
            old(self).wf(),
        ensures
            final(self).wf(),
            final(self).model() == spec_resume(old(self).model(), reply@),
    {
        let mut p: Option<Pending> = None;
        std::mem::swap(&mut p, &mut self.pending);
        match (p, reply) {
            (Some(Pending::Arith), Reply::Number(n)) => self.push_atom(Atom::num(n)),
            (Some(Pending::Compare), Reply::Truth(t)) => self.push_atom(Atom::boolean(t)),
            (Some(Pending::Count(body)), Reply::Count(k)) => self.push_control(
                Control::Times(body, k),
            ),
            (Some(Pending::Stringify), Reply::Text(s)) => self.push_atom(Atom::string(s)),
            _ => {},
        }
    }

    /// Whether the machine waits for a reply.
    pub fn is_waiting(&self) -> (r: bool)
        ensures
            r == self.model().pending is Some,
    {
        self.pending.is_some()
    }

    /// Sets an atom to be evaluated; `step` carries the evaluation out.
    pub fn eval(&mut self, a: AtomRef)
        requires
            old(self).wf(),
        ensures
            final(self).wf(),
            final(self).model() == push_control(old(self).model(), ControlModel::Work(a@)),
    {
        self.push_control(Control::Work(a));
    }

    /// Sets the innermost frame to run until it returns; `step` carries
    /// the run out.
    pub fn exec(&mut self)
        requires
            old(self).wf(),
            old(self).model().frames.len() > 0,
        ensures
            final(self).wf(),
            final(self).model() == push_control(
                old(self).model(),
                ControlModel::Exec(old(self).model().frames.len()),
            ),
    {
        let n = self.exec_stack.len();
        self.push_control(Control::Exec(n));
    }
}

} // verus!

verus! {

/// Appends the written form of an atom.
fn write_atom(a: &Atom, writer: &mut Writer)
    ensures
        final(writer)@ == old(writer)@ + spec_serialize(a@),
    decreases a,
{
    let ghost start = writer@;
    match a {
        Atom::Nil => {
            writer.write(AtomTag::Nil);
        },
        Atom::Num(n) => {
            writer.write(AtomTag::Num);
            writer.write(*n);
        },
        Atom::Blob(b) => {
            writer.write(AtomTag::Blob);
            writer.write(b.len() as u16);
            writer.write_bytes(b.as_slice());
        },
        Atom::Cons(head, tail) => {
            writer.write(AtomTag::Cons);
            write_atom(head, writer);
            write_atom(tail, writer);
        },
        Atom::Str(s) => {
            writer.write(AtomTag::Cons);
            writer.write(s.as_str());
        },
    }
    assert(writer@ =~= start + spec_serialize(a@));
}

impl Interpreter {
    /// Appends the written form of an atom to `writer`.
    pub fn serialize_atom(&self, atom: AtomRef, writer: &mut Writer) -> (r: AtomResult<()>)
        ensures
            r is Ok,
            final(writer)@ == old(writer)@ + spec_serialize(atom@),
    {
        write_atom(&atom, writer);
        Ok(())
    }

    /// The atom file of the environment, its entries in the order their
    /// names were first bound.
    pub fn write_atom_file(&self) -> (r: AtomResult<Vec<u8>>)
        ensures
            r matches Ok(b) && b@ == spec_atom_file(self.entries()),
            entries_map(self.entries()) == self.model().env,
    {
        let mut writer = Writer::new();
        let m = vec![65u8, 84u8, 79u8, 77u8];
        writer.write_bytes(m.as_slice());
        let n = self.env.len();
        writer.write(n as u32);
        let ghost es = self.env.entries();
        let mut i: usize = 0;
        proof {
            assert(es.take(0) =~= Seq::<(Seq<char>, AtomModel)>::empty());
            assert(writer@ =~= magic() + le32(es.len() as u32) + entries_bytes(es.take(0)));
        }
        while i < n
            invariant
                i <= n,
                n == es.len(),
                es == self.env.entries(),
                writer@ == magic() + le32(es.len() as u32) + entries_bytes(es.take(i as int)),
            decreases n - i,
        {
            let ghost before = writer@;
            writer.write(self.env.key_at(i).as_str());
            let v = self.env.value_at(i).clone();
            let _ = self.serialize_atom(v, &mut writer);
            proof {
                lemma_entries_bytes_take(es, i as int);
                assert(writer@ =~= before + entry_bytes(es[i as int]));
            }
            i = i + 1;
        }
        assert(es.take(n as int) =~= es);
        Ok(writer.finish())
    }

    /// Reads one atom.
    fn deserialize_atom(reader: &mut Reader) -> (r: AtomResult<AtomRef>)
        ensures
            final(reader)@ == spec_deserialize(old(reader)@).1,
            spec_deserialize(old(reader)@).0 matches Ok(a) ==> (r matches Ok(x) && x@ == a),
            spec_deserialize(old(reader)@).0 matches Err(e) ==> (r matches Err(x) && x@ == e),
        decreases old(reader)@.len(),
    {
        let ghost d = reader@;
        let tag = reader.fetch::<u8>()?;
        let tag = AtomTag::try_from_byte(tag)?;
        assert(reader@ == d.skip(1));
        match tag {
            AtomTag::Nil => Ok(Atom::nil()),
            AtomTag::Num => {
                let n = reader.fetch::<u64>()?;
                Ok(Atom::num(n))
            },
            AtomTag::Str => {
                let s = reader.fetch_str()?;
                Ok(Atom::string(s))
            },
            AtomTag::Cons => {
                proof {
                    lemma_deserialize_rest(d.skip(1));
                }
                let head = Self::deserialize_atom(reader)?;
                let tail = Self::deserialize_atom(reader)?;
                Ok(Atom::cons(head, tail))
            },
            AtomTag::Blob => {
                let len = reader.fetch::<u32>()?;
                let bytes = reader.fetch_vec(len as usize)?;
                Ok(Atom::blob(bytes))
            },
        }
    }

    /// Reads an atom file into the environment, binding each name to its
    /// atom in turn. What was read before a failure stays bound.
    pub fn load_atom_file(&mut self, bytes: &[u8]) -> (r: AtomResult<()>)
        requires
            old(self).wf(),
        ensures
            final(self).wf(),
            final(self).model() == (VmModel {
                env: spec_load(old(self).model().env, bytes@).0,
                ..old(self).model()
            }),
            spec_load(old(self).model().env, bytes@).1 matches Ok(_) ==> r is Ok,
            spec_load(old(self).model().env, bytes@).1 matches Err(e) ==> (r matches Err(x) && x@
                == e),
    {
        let ghost m0 = self.model();
        let mut reader = Reader::new(bytes);
        let head = reader.fetch_vec(4)?;
        assert(head@ == bytes@.take(4));
        if !(head[0] == 65u8 && head[1] == 84u8 && head[2] == 79u8 && head[3] == 77u8) {
            return Err(AtomError::InvalidMagic);
        }
        assert(head@ =~= magic());
        let count = reader.fetch::<u32>()?;
        proof {
            assert(bytes@.skip(4).take(4) =~= bytes@.subrange(4, 8));
            assert(bytes@.skip(4).skip(4) =~= bytes@.skip(8));
        }
        let mut i: u32 = 0;
        while i < count
            invariant
                i <= count,
                self.wf(),
                m0 == old(self).model(),
                spec_load(m0.env, bytes@) == spec_load_entries(
                    self.model().env,
                    reader@,
                    (count - i) as nat,
                ),
                self.model() == (VmModel { env: self.model().env, ..m0 }),
            decreases count - i,
        {
            let key = reader.fetch_str()?;
            let value = Self::deserialize_atom(&mut reader)?;
            let ghost before = self.model();
            self.env.insert(key, value);
            assert(self.model() == (VmModel { env: before.env.insert(key@, value@), ..before }));
            i = i + 1;
        }
        Ok(())
    }
}

} // verus!

verus! {

/// Swapping twice leaves the machine as it was.
pub proof fn law_swap_twice(m: VmModel)
    requires
        m.stack.len() >= 2,
    ensures
        apply_op(apply_op(m, Opcode::Swap, OperandModel::Nothing).0, Opcode::Swap, OperandModel::Nothing)
            == done(m),
{
    let n = m.stack.len();
    let m1 = apply_op(m, Opcode::Swap, OperandModel::Nothing).0;
    assert(m1.stack =~= m.stack.take(n - 2).push(m.stack[n - 1]).push(m.stack[n - 2]));
    assert(m1.stack.take(n - 2) =~= m.stack.take(n - 2));
    assert(m1.stack.take(n - 2).push(m1.stack[n - 1]).push(m1.stack[n - 2]) =~= m.stack);
}

/// Duplicating the top value and dropping it leaves the machine as it was.
pub proof fn law_dup_then_drop(m: VmModel)
    requires
        m.stack.len() >= 1,
    ensures
        apply_op(apply_op(m, Opcode::Dup, OperandModel::Nothing).0, Opcode::Drop, OperandModel::Nothing)
            == done(m),
{
    let m1 = apply_op(m, Opcode::Dup, OperandModel::Nothing).0;
    assert(m1.stack.drop_last() =~= m.stack);
}

/// Moving the top value to the return stack and fetching the newest value
/// of the return stack leaves the data stack as it was, with a copy of its
/// top value on the return stack.
pub proof fn law_to_ret_then_fetch(m: VmModel)
    requires
        m.stack.len() >= 1,
    ensures
        apply_op(m, Opcode::ToRet, OperandModel::Count(1)).1 == Ok::<Option<RequestModel>, ErrorModel>(None),
        apply_op(apply_op(m, Opcode::ToRet, OperandModel::Count(1)).0, Opcode::FetchRet, OperandModel::Count(0))
            == done(VmModel { ret: m.ret.push(m.stack.last()), ..m }),
{
    let m1 = VmModel { stack: m.stack.drop_last(), ret: m.ret.push(m.stack.last()), ..m };
    assert(to_ret(m, 1) == to_ret(m1, 0));
    assert(m1.stack.push(m.stack.last()) =~= m.stack);
}

proof fn lemma_to_ret(m: VmModel, k: nat)
    requires
        m.stack.len() >= k,
    ensures
        to_ret(m, k).1 == Ok::<Option<RequestModel>, ErrorModel>(None),
        to_ret(m, k).0 == (VmModel {
            stack: m.stack.take(m.stack.len() - k),
            ret: to_ret(m, k).0.ret,
            ..m
        }),
        to_ret(m, k).0.ret.len() == m.ret.len() + k,
        to_ret(m, k).0.ret.take(m.ret.len() as int) == m.ret,
    decreases k,
{
    if k == 0 {
        assert(m.stack.take(m.stack.len() as int) =~= m.stack);
        assert(m.ret.take(m.ret.len() as int) =~= m.ret);
    } else {
        let m1 = VmModel { stack: m.stack.drop_last(), ret: m.ret.push(m.stack.last()), ..m };
        lemma_to_ret(m1, (k - 1) as nat);
        assert(m1.stack.take(m1.stack.len() - (k - 1)) =~= m.stack.take(m.stack.len() - k));
        let r = to_ret(m1, (k - 1) as nat).0.ret;
        assert(r.take(m.ret.len() as int) =~= r.take(m1.ret.len() as int).take(m.ret.len() as int));
        assert(m1.ret.take(m.ret.len() as int) =~= m.ret);
    }
}

proof fn lemma_drop_ret(m: VmModel, k: nat)
    requires
        m.ret.len() >= k,
    ensures
        drop_ret(m, k) == done(VmModel { ret: m.ret.take(m.ret.len() - k), ..m }),
    decreases k,
{
    if k == 0 {
        assert(m.ret.take(m.ret.len() as int) =~= m.ret);
    } else {
        let m1 = VmModel { ret: m.ret.drop_last(), ..m };
        lemma_drop_ret(m1, (k - 1) as nat);
        assert(m1.ret.take(m1.ret.len() - (k - 1)) =~= m.ret.take(m.ret.len() - k));
    }
}

/// Moving `k` values to the return stack and dropping `k` from it pops
/// them, leaving the return stack as it was.
pub proof fn law_to_ret_then_drop_ret(m: VmModel, k: u16)
    requires
        m.stack.len() >= k,
    ensures
        apply_op(m, Opcode::ToRet, OperandModel::Count(k)).1 == Ok::<Option<RequestModel>, ErrorModel>(None),
        apply_op(apply_op(m, Opcode::ToRet, OperandModel::Count(k)).0, Opcode::DropRet, OperandModel::Count(k))
            == done(with_stack(m, m.stack.take(m.stack.len() - k))),
{
    lemma_to_ret(m, k as nat);
    let m1 = to_ret(m, k as nat).0;
    lemma_drop_ret(m1, k as nat);
    assert(m1.ret.take(m1.ret.len() - k) == m.ret);
}

/// An arithmetic instruction on two numbers asks for the result and, given
/// it, leaves it in place of the two numbers.
pub proof fn law_arith_reply(m: VmModel, op: Opcode, x: u64)
    requires
        is_arith(op),
        m.stack.len() >= 2,
        m.stack[m.stack.len() - 1] is Num,
        m.stack[m.stack.len() - 2] is Num,
    ensures
        ({
            let n = m.stack.len();
            let (m1, r) = apply_op(m, op, OperandModel::Nothing);
            &&& r == Ok::<Option<RequestModel>, ErrorModel>(
                Some(RequestModel::Arith(op, m.stack[n - 2]->Num_0, m.stack[n - 1]->Num_0)),
            )
            &&& spec_resume(m1, ReplyModel::Number(x)) == (VmModel {
                stack: m.stack.take(n - 2).push(AtomModel::Num(x)),
                pending: None,
                ..m
            })
        }),
{
    let n = m.stack.len();
    assert(m.stack.drop_last().drop_last() =~= m.stack.take(n - 2));
    assert(m.stack.drop_last().last() == m.stack[n - 2]);
}

/// Evaluating a number or a string pushes it.
pub proof fn law_eval_value(m: VmModel, a: AtomModel)
    requires
        a is Num || a is Str,
    ensures
        spec_step(push_control(m, ControlModel::Work(a))) == (push(m, a), Outcome::Continue),
{
    assert(pop_control(push_control(m, ControlModel::Work(a))).control =~= m.control);
}

} // verus!

verus! {

/// `PushEnv` followed by a name as the assembler writes it is read back as
/// that name, the operand taking exactly the bytes written, when the
/// name's UTF-8 form is shorter than 65536 bytes.
pub proof fn law_push_env_decodes(name: Seq<char>, rest: Seq<u8>)
    requires
        encode_utf8(name).len() < 65536,
    ensures
        decode_operand(Opcode::PushEnv, str_bytes(name) + rest) == Ok::<(OperandModel, nat), ErrorModel>(
            (OperandModel::Name(name), str_bytes(name).len()),
        ),
{
    law_str_read_after_write(name, rest);
    assert((str_bytes(name) + rest).len() == str_bytes(name).len() + rest.len());
}

/// An instruction with a 16-bit operand, as the assembler writes it, is read
/// back with that operand, which takes two bytes.
pub proof fn law_counted_op_decodes(op: Opcode, n: u16, rest: Seq<u8>)
    requires
        op == Opcode::ToRet || op == Opcode::FetchRet || op == Opcode::DropRet,
    ensures
        decode_operand(op, le16(n) + rest) == Ok::<(OperandModel, nat), ErrorModel>(
            (OperandModel::Count(n), 2),
        ),
{
    law_u16_read_after_write(n, rest);
    assert((n.spec_bytes() + rest).take(2) =~= seq![(le16(n) + rest)[0], (le16(n) + rest)[1]]);
}

proof fn lemma_to_ret_env(m: VmModel, k: nat)
    ensures
        to_ret(m, k).0.env == m.env,
        to_ret(m, k).0.frames == m.frames,
        to_ret(m, k).0.control == m.control,
    decreases k,
{
    if k > 0 && m.stack.len() > 0 {
        lemma_to_ret_env(
            VmModel { stack: m.stack.drop_last(), ret: m.ret.push(m.stack.last()), ..m },
            (k - 1) as nat,
        );
    }
}

proof fn lemma_drop_ret_env(m: VmModel, k: nat)
    ensures
        drop_ret(m, k).0.env == m.env,
        drop_ret(m, k).0.frames == m.frames,
        drop_ret(m, k).0.control == m.control,
    decreases k,
{
    if k > 0 && m.ret.len() > 0 {
        lemma_drop_ret_env(VmModel { ret: m.ret.drop_last(), ..m }, (k - 1) as nat);
    }
}

/// Running a program never changes the named atoms: no step and no reply
/// touches the environment.
pub proof fn law_running_keeps_env(m: VmModel, r: ReplyModel)
    ensures
        spec_step(m).0.env == m.env,
        spec_resume(m, r).env == m.env,
{
    if m.control.len() > 0 {
        match m.control.last() {
            ControlModel::Exec(target) => {
                if !(m.frames.len() < target || m.frames.len() == 0) {
                    let f = m.frames[m.frames.len() - 1];
                    if f.ip < f.code.len() {
                        let b = f.code[f.ip];
                        match Opcode::spec_from_byte(b) {
                            Some(op) => match decode_operand(op, f.code.skip(f.ip + 1)) {
                                Ok((operand, len)) => {
                                    match operand {
                                        OperandModel::Count(c) => {
                                            lemma_to_ret_env(m, c as nat);
                                            lemma_drop_ret_env(m, c as nat);
                                        },
                                        _ => {},
                                    }
                                },
                                _ => {},
                            },
                            None => {},
                        }
                    }
                }
            },
            _ => {},
        }
    }
}

} // verus!

verus! {

/// Two `Swap` instructions carried out one after the other by `step` leave
/// the data stack, the return stack and all else as they were; only the
/// running frame moves past them.
pub proof fn law_swap_steps(m: VmModel, target: nat)
    requires
        m.control.len() > 0,
        m.control.last() == ControlModel::Exec(target),
        m.frames.len() > 0,
        m.frames.len() >= target,
        0 <= m.frames.last().ip,
        m.frames.last().ip + 2 <= m.frames.last().code.len(),
        m.frames.last().code[m.frames.last().ip] == Opcode::Swap.spec_byte(),
        m.frames.last().code[m.frames.last().ip + 1] == Opcode::Swap.spec_byte(),
        m.stack.len() >= 2,
    ensures
        spec_step(m).1 == Outcome::Continue,
        spec_step(spec_step(m).0).1 == Outcome::Continue,
        spec_step(spec_step(m).0).0 == (VmModel {
            frames: m.frames.update(
                m.frames.len() - 1,
                FrameModel { code: m.frames.last().code, ip: m.frames.last().ip + 2 },
            ),
            ..m
        }),
{
    let idx = m.frames.len() - 1;
    let f = m.frames[idx];
    let n = m.stack.len();
    let swapped = apply_op(m, Opcode::Swap, OperandModel::Nothing).0;
    let m1 = VmModel {
        frames: swapped.frames.update(idx, FrameModel { code: f.code, ip: f.ip + 1 }),
        ..swapped
    };
    assert(decode_operand(Opcode::Swap, f.code.skip(f.ip + 1)) == Ok::<(OperandModel, nat), ErrorModel>(
        (OperandModel::Nothing, 0),
    ));
    assert(spec_step(m) == (m1, Outcome::Continue));
    assert(m1.frames.len() == m.frames.len());
    assert(m1.frames[idx] == FrameModel { code: f.code, ip: f.ip + 1 });
    assert(m1.control == m.control);
    assert(m1.stack.len() == n);
    let swapped2 = apply_op(m1, Opcode::Swap, OperandModel::Nothing).0;
    let m2 = VmModel {
        frames: swapped2.frames.update(idx, FrameModel { code: f.code, ip: f.ip + 2 }),
        ..swapped2
    };
    assert(decode_operand(Opcode::Swap, f.code.skip(f.ip + 2)) == Ok::<(OperandModel, nat), ErrorModel>(
        (OperandModel::Nothing, 0),
    ));
    assert(spec_step(m1) == (m2, Outcome::Continue));
    law_swap_twice(m);
    assert(m2.stack =~= m.stack);
    assert(m2.frames =~= m.frames.update(idx, FrameModel { code: f.code, ip: f.ip + 2 }));
}

} // verus!

verus! {

/// Joining two blobs leaves one blob: the deeper operand's bytes, then the
/// top operand's.
pub proof fn law_join_blobs(m: VmModel, s: Seq<AtomModel>, a: Seq<u8>, b: Seq<u8>)
    requires
        m.stack == s.push(AtomModel::Blob(a)).push(AtomModel::Blob(b)),
    ensures
        apply_op(m, Opcode::Join, OperandModel::Nothing).1 == Ok::<Option<RequestModel>, ErrorModel>(None),
        apply_op(m, Opcode::Join, OperandModel::Nothing).0.stack.len() == s.len() + 1,
        apply_op(m, Opcode::Join, OperandModel::Nothing).0.stack.take(s.len() as int) == s,
        ({
            let top = apply_op(m, Opcode::Join, OperandModel::Nothing).0.stack.last();
            &&& top is Blob
            &&& top->Blob_0.len() == a.len() + b.len()
            &&& forall|i: int| 0 <= i < a.len() ==> top->Blob_0[i] == a[i]
            &&& forall|i: int| 0 <= i < b.len() ==> top->Blob_0[a.len() + i] == b[i]
        }),
{
    let n = m.stack.len();
    assert(m.stack.take(n - 2) =~= s);
    assert(s.push(AtomModel::Blob(a + b)).take(s.len() as int) =~= s);
}

/// Joining two strings leaves one string: the deeper operand's characters,
/// then the top operand's.
pub proof fn law_join_strings(m: VmModel, s: Seq<AtomModel>, a: Seq<char>, b: Seq<char>)
    requires
        m.stack == s.push(AtomModel::Str(a)).push(AtomModel::Str(b)),
    ensures
        apply_op(m, Opcode::Join, OperandModel::Nothing).1 == Ok::<Option<RequestModel>, ErrorModel>(None),
        apply_op(m, Opcode::Join, OperandModel::Nothing).0.stack.len() == s.len() + 1,
        apply_op(m, Opcode::Join, OperandModel::Nothing).0.stack.take(s.len() as int) == s,
        ({
            let top = apply_op(m, Opcode::Join, OperandModel::Nothing).0.stack.last();
            &&& top is Str
            &&& top->Str_0.len() == a.len() + b.len()
            &&& forall|i: int| 0 <= i < a.len() ==> top->Str_0[i] == a[i]
            &&& forall|i: int| 0 <= i < b.len() ==> top->Str_0[a.len() + i] == b[i]
        }),
{
    let n = m.stack.len();
    assert(m.stack.take(n - 2) =~= s);
    assert(s.push(AtomModel::Str(a + b)).take(s.len() as int) =~= s);
}

/// A string on the stack decides as its length does: `not` gives `1.0` for
/// the empty string and `0.0` for any other, and a conditional runs its
/// else branch on the empty string and its then branch on any other.
pub proof fn law_string_conditions(m: VmModel, s: Seq<AtomModel>, t: Seq<char>, th: AtomModel, el: AtomModel)
    ensures
        m.stack == s.push(AtomModel::Str(t)) ==> apply_op(m, Opcode::Not, OperandModel::Nothing) == done(
            VmModel {
                stack: s.push(AtomModel::Num(if t.len() == 0 { ONE_BITS } else { ZERO_BITS })),
                ..m
            },
        ),
        m.stack == s.push(AtomModel::Str(t)).push(th).push(el) ==> apply_op(
            m,
            Opcode::IfThenElse,
            OperandModel::Nothing,
        ) == done(
            run_atom(
                VmModel { stack: s, ..m },
                if t.len() == 0 {
                    el
                } else {
                    th
                },
            ),
        ),
{
    if m.stack == s.push(AtomModel::Str(t)) {
        assert(m.stack.drop_last() =~= s);
    }
    if m.stack == s.push(AtomModel::Str(t)).push(th).push(el) {
        assert(m.stack.take(m.stack.len() - 3) =~= s);
    }
}

} // verus!
