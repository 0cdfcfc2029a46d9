use atom_lang::assembler::Assembler;
use atom_lang::atom::{Atom, AtomError, AtomRef, Opcode, Piece};
use atom_lang::compiler::{number_literals, Compiler, NumberInfo};
use atom_lang::interpreter::{Interpreter, Reply, Request, Step};
use atom_lang::parser::Program;

fn numbers_for(prog: &Program) -> Vec<NumberInfo> {
    number_literals(&prog.nodes)
        .into_iter()
        .map(|literal| {
            let value: f64 = literal.parse().unwrap();
            NumberInfo { literal, bits: value.to_bits(), key: value.to_string() }
        })
        .collect()
}

fn render(pieces: &[Piece]) -> String {
    let mut out = String::new();
    for p in pieces {
        match p {
            Piece::Text(s) => out.push_str(s),
            Piece::Number(bits) => out.push_str(&f64::from_bits(*bits).to_string()),
        }
    }
    out
}

fn answer(req: Request, printed: &mut String) -> Reply {
    match req {
        Request::Arith(op, a, b) => {
            let (x, y) = (f64::from_bits(a), f64::from_bits(b));
            let r = match op {
                Opcode::Add => x + y,
                Opcode::Sub => x - y,
                Opcode::Mult => x * y,
                Opcode::Div => x / y,
                Opcode::Mod => x % y,
                _ => panic!("not arithmetic"),
            };
            Reply::Number(r.to_bits())
        }
        Request::Compare(op, a, b) => {
            let (x, y) = (f64::from_bits(a), f64::from_bits(b));
            let r = match op {
                Opcode::Lt => x < y,
                Opcode::Lte => x <= y,
                Opcode::Gt => x > y,
                Opcode::Gte => x >= y,
                _ => panic!("not a comparison"),
            };
            Reply::Truth(r)
        }
        Request::Count(t) => Reply::Count(f64::from_bits(t) as u32),
        Request::Print(pieces) => {
            printed.push_str(&render(&pieces));
            Reply::Printed
        }
        Request::Stringify(pieces) => Reply::Text(render(&pieces)),
    }
}

fn drive(vm: &mut Interpreter) -> Result<String, AtomError> {
    let mut printed = String::new();
    loop {
        match vm.step()? {
            Step::Done => return Ok(printed),
            Step::Continue => {}
            Step::Need(req) => {
                let reply = answer(req, &mut printed);
                vm.resume(reply);
            }
        }
    }
}

fn run_source(src: &str) -> (Interpreter, Result<String, AtomError>) {
    let prog = Program::parse(src).unwrap();
    let nums = numbers_for(&prog);
    let env = Compiler::new().compile(&prog.nodes, &nums).unwrap();
    let mut vm = Interpreter::new();
    vm.import(env);
    let main = vm.env.get("main").cloned();
    let result = match main {
        Some(m) => {
            vm.eval(m);
            drive(&mut vm)
        }
        None => Ok(String::new()),
    };
    (vm, result)
}

fn output(src: &str) -> String {
    run_source(src).1.unwrap()
}

fn run_atom(a: AtomRef) -> (Interpreter, Result<String, AtomError>) {
    let mut vm = Interpreter::new();
    vm.eval(a);
    let r = drive(&mut vm);
    (vm, r)
}

fn num(a: &AtomRef) -> f64 {
    match &**a {
        Atom::Num(bits) => f64::from_bits(*bits),
        other => panic!("not a number: {:?}", other),
    }
}

fn nums_on_stack(vm: &Interpreter) -> Vec<f64> {
    vm.stack.iter().map(num).collect()
}

#[test]
fn adds_and_prints() {
    assert_eq!(output("1 2 + out"), "3");
}

#[test]
fn arithmetic_operators() {
    assert_eq!(output("7 2 / out"), "3.5");
    assert_eq!(output("7 3 % out"), "1");
    assert_eq!(output("6 7 * out"), "42");
    assert_eq!(output("1 2 swap - out"), "1");
}

#[test]
fn joins_strings() {
    assert_eq!(output("\"hi\" \" there\" ++ out"), "hi there");
}

#[test]
fn string_cast_then_join() {
    assert_eq!(output("1 2 + string \"!\" ++ out"), "3!");
}

#[test]
fn words_are_evaluated() {
    assert_eq!(output("$sq [dup *] 3 #sq ! out"), "9");
}

#[test]
fn variables_bind_and_fetch() {
    assert_eq!(output("5 >x <x <x * out"), "25");
}

#[test]
fn variables_in_blocks() {
    assert_eq!(output("$sq [>n <n <n *] 4 #sq ! out"), "16");
}

#[test]
fn if_else_picks_a_branch() {
    assert_eq!(output("1 2 lt if [\"yes\" out] else [\"no\" out]"), "yes");
    assert_eq!(output("2 1 lt if [\"yes\" out] else [\"no\" out]"), "no");
    assert_eq!(output("0 if [\"yes\" out]"), "");
}

#[test]
fn ift_runs_on_truth() {
    assert_eq!(output("1 [\"t\" out] ift"), "t");
    assert_eq!(output("0 [\"t\" out] ift"), "");
}

#[test]
fn ifte_on_the_stack() {
    assert_eq!(output("nil [\"t\" out] [\"f\" out] ifte"), "f");
}

#[test]
fn times_repeats() {
    assert_eq!(output("[\"a\" out] 3 times"), "aaa");
    assert_eq!(output("[\"a\" out] 0 times"), "");
    assert_eq!(output("[\"a\" out] 2.9 times"), "aa");
}

#[test]
fn whiledo_loops_until_false() {
    assert_eq!(output("0 [dup 3 lt] [dup out 1 +] whiledo drop"), "012");
}

#[test]
fn lists_head_tail_cons() {
    assert_eq!(output("(1 2 3) head out"), "1");
    assert_eq!(output("(1 2 3) tail out"), "(2 . (3 . nil))");
    assert_eq!(output("1 2 :: out"), "(2 . 1)");
    assert_eq!(output("nil out"), "nil");
}

#[test]
fn blobs_print_in_hex() {
    assert_eq!(output("[1] out"), "#[00 01 00 31]");
}

#[test]
fn equality_and_not() {
    assert_eq!(output("1 1 eq out"), "1");
    assert_eq!(output("1 2 eq not out"), "1");
    assert_eq!(output("\"a\" \"a\" eq out"), "1");
    assert_eq!(output("(1 2) (1 2) eq out"), "1");
    assert_eq!(output("1 \"1\" eq out"), "0");
}

#[test]
fn lte_compares() {
    assert_eq!(output("2 2 lte out"), "1");
    assert_eq!(output("3 2 lte out"), "0");
}

#[test]
fn stack_shuffles() {
    let (vm, r) = run_source("1 2 over");
    r.unwrap();
    assert_eq!(nums_on_stack(&vm), vec![1.0, 2.0, 1.0]);
    let (vm, r) = run_source("1 2 nip");
    r.unwrap();
    assert_eq!(nums_on_stack(&vm), vec![2.0]);
}

#[test]
fn law_swap_twice_concrete() {
    let (vm, r) = run_source("1 2 swap swap");
    r.unwrap();
    assert_eq!(nums_on_stack(&vm), vec![1.0, 2.0]);
}

#[test]
fn law_dup_drop_concrete() {
    let (vm, r) = run_source("7 dup drop");
    r.unwrap();
    assert_eq!(nums_on_stack(&vm), vec![7.0]);
}

#[test]
fn law_to_ret_fetch_concrete() {
    let code = Assembler::new().to_ret(1).fetch_ret(0).block();
    let mut vm = Interpreter::new();
    vm.stack.push(Atom::num(5.0f64.to_bits()));
    vm.eval(code);
    drive(&mut vm).unwrap();
    assert_eq!(nums_on_stack(&vm), vec![5.0]);
    assert_eq!(vm.ret_stack.len(), 1);
    assert_eq!(num(&vm.ret_stack[0]), 5.0);
}

#[test]
fn law_to_ret_drop_ret_concrete() {
    let code = Assembler::new().to_ret(2).drop_ret(2).block();
    let mut vm = Interpreter::new();
    for v in [1.0f64, 2.0, 3.0] {
        vm.stack.push(Atom::num(v.to_bits()));
    }
    vm.eval(code);
    drive(&mut vm).unwrap();
    assert_eq!(nums_on_stack(&vm), vec![1.0]);
    assert!(vm.ret_stack.is_empty());
}

#[test]
fn law_arith_reply_concrete() {
    let code = Assembler::new().add().block();
    let mut vm = Interpreter::new();
    vm.stack.push(Atom::num(1.5f64.to_bits()));
    vm.stack.push(Atom::num(2.0f64.to_bits()));
    vm.eval(code);
    let mut asked = None;
    loop {
        match vm.step().unwrap() {
            Step::Done => break,
            Step::Continue => {}
            Step::Need(req) => {
                asked = Some(req);
                assert!(vm.is_waiting());
                vm.resume(Reply::Number(42.0f64.to_bits()));
                assert!(!vm.is_waiting());
            }
        }
    }
    match asked {
        Some(Request::Arith(Opcode::Add, a, b)) => {
            assert_eq!(f64::from_bits(a), 1.5);
            assert_eq!(f64::from_bits(b), 2.0);
        }
        other => panic!("unexpected request {:?}", other),
    }
    assert_eq!(nums_on_stack(&vm), vec![42.0]);
}

#[test]
fn law_eval_value_concrete() {
    let mut vm = Interpreter::new();
    vm.eval(Atom::str("x"));
    assert!(matches!(vm.step(), Ok(Step::Continue)));
    assert!(matches!(&*vm.stack[0], Atom::Str(s) if s == "x"));
    assert!(matches!(vm.step(), Ok(Step::Done)));
}

#[test]
fn stepping_an_idle_machine_is_done() {
    let mut vm = Interpreter::new();
    assert!(matches!(vm.step(), Ok(Step::Done)));
}

#[test]
fn evaluating_a_list_pushes_its_elements() {
    let list = Atom::cons(Atom::num(1.0f64.to_bits()), Atom::cons(Atom::num(2.0f64.to_bits()), Atom::nil()));
    let (vm, r) = run_atom(list);
    r.unwrap();
    assert_eq!(nums_on_stack(&vm), vec![1.0, 2.0]);
}

#[test]
fn error_stack_underflow() {
    assert!(matches!(run_source("drop").1, Err(AtomError::StackUnderflow)));
    assert!(matches!(run_source("1 +").1, Err(AtomError::StackUnderflow)));
}

#[test]
fn error_type_mismatch() {
    assert!(matches!(run_source("1 head").1, Err(AtomError::TypeMismatch)));
    assert!(matches!(run_source("\"a\" 1 +").1, Err(AtomError::TypeMismatch)));
    assert!(matches!(run_source("\"a\" 1 ++").1, Err(AtomError::TypeMismatch)));
}

#[test]
fn error_invalid_env_id() {
    match run_source("#nothing").1 {
        Err(AtomError::InvalidEnvId(name)) => assert_eq!(name, "nothing"),
        other => panic!("unexpected {:?}", other),
    }
}

#[test]
fn error_halt() {
    let (_, r) = run_atom(Assembler::new().halt().block());
    assert!(matches!(r, Err(AtomError::Halt)));
}

#[test]
fn error_invalid_opcode() {
    let (_, r) = run_atom(Atom::blob(vec![200]));
    assert!(matches!(r, Err(AtomError::InvalidOpcode(200))));
}

#[test]
fn error_malformed_operand() {
    let (_, r) = run_atom(Atom::blob(vec![0]));
    assert!(matches!(r, Err(AtomError::MalformedBytecode)));
    let (_, r) = run_atom(Atom::blob(vec![24, 1]));
    assert!(matches!(r, Err(AtomError::MalformedBytecode)));
}

#[test]
fn error_ret_stack_underflow() {
    let (_, r) = run_atom(Assembler::new().fetch_ret(0).block());
    assert!(matches!(r, Err(AtomError::RetStackUnderflow)));
    let (_, r) = run_atom(Assembler::new().drop_ret(1).block());
    assert!(matches!(r, Err(AtomError::RetStackUnderflow)));
}

#[test]
fn this_pushes_the_running_blob() {
    let code = Assembler::new().this().block();
    let (vm, r) = run_atom(code);
    r.unwrap();
    assert_eq!(vm.stack.len(), 1);
    assert!(matches!(&*vm.stack[0], Atom::Blob(b) if b == &vec![10u8]));
}

#[test]
fn register_binds_a_name() {
    let mut vm = Interpreter::new();
    vm.register("k", Atom::num(3.0f64.to_bits()));
    vm.eval(Assembler::new().push_env("k").block());
    drive(&mut vm).unwrap();
    assert_eq!(nums_on_stack(&vm), vec![3.0]);
}

#[test]
fn exec_runs_the_innermost_frame() {
    let mut vm = Interpreter::new();
    vm.eval(Assembler::new().dup().block());
    vm.stack.push(Atom::num(1.0f64.to_bits()));
    assert!(matches!(vm.step(), Ok(Step::Continue)));
    vm.exec();
    drive(&mut vm).unwrap();
    assert_eq!(nums_on_stack(&vm), vec![1.0, 1.0]);
}

#[test]
fn law_running_keeps_env_concrete() {
    let (vm, r) = run_source("$k 4 1 2 + out #k drop");
    assert_eq!(r.unwrap(), "3");
    let names = ["k", "main", "1", "2"];
    assert_eq!(vm.env.len(), names.len());
    for name in names {
        assert!(vm.env.contains_key(name), "{} missing", name);
    }
    assert!(matches!(&**vm.env.get("k").unwrap(), Atom::Num(b) if f64::from_bits(*b) == 4.0));
}

#[test]
fn law_push_env_decodes_concrete() {
    let mut vm = Interpreter::new();
    vm.register("a name", Atom::nil());
    vm.eval(Assembler::new().push_env("a name").dup().block());
    drive(&mut vm).unwrap();
    assert_eq!(vm.stack.len(), 2);
}

#[test]
fn law_counted_op_decodes_concrete() {
    let mut vm = Interpreter::new();
    for v in [1.0f64, 2.0, 3.0] {
        vm.stack.push(Atom::num(v.to_bits()));
    }
    vm.eval(Assembler::new().to_ret(3).fetch_ret(2).block());
    drive(&mut vm).unwrap();
    assert_eq!(nums_on_stack(&vm), vec![3.0]);
    assert_eq!(vm.ret_stack.len(), 3);
}

#[test]
fn law_swap_steps_concrete() {
    let mut vm = Interpreter::new();
    vm.stack.push(Atom::num(1.0f64.to_bits()));
    vm.stack.push(Atom::num(2.0f64.to_bits()));
    vm.ret_stack.push(Atom::nil());
    vm.eval(Assembler::new().op(Opcode::Swap).op(Opcode::Swap).block());
    assert!(matches!(vm.step(), Ok(Step::Continue)));
    assert!(matches!(vm.step(), Ok(Step::Continue)));
    assert_eq!(nums_on_stack(&vm), vec![2.0, 1.0]);
    assert!(matches!(vm.step(), Ok(Step::Continue)));
    assert_eq!(nums_on_stack(&vm), vec![1.0, 2.0]);
    assert_eq!(vm.ret_stack.len(), 1);
    drive(&mut vm).unwrap();
    assert_eq!(nums_on_stack(&vm), vec![1.0, 2.0]);
}
