use std::rc::Rc;
use bao::compiler::{compile, Chunk, Op};
use bao::value::{Function, Value};
use bao::vm::{VmError, VM};

const FUEL: usize = 50_000_000;

fn eval(src: &str) -> Result<Value, VmError> {
    let f = compile(src.as_bytes()).expect("program should compile");
    let mut vm = VM::new(Rc::new(f));
    vm.run(FUEL).expect("program should finish within the step budget")
}

fn eval_ok(src: &str) -> Value {
    eval(src).expect("program should not hit a fatal condition")
}

fn run_chunk(code: Vec<Op>, constants: Vec<Value>) -> Option<Result<Value, VmError>> {
    let f = Function { arity: 0, chunk: Chunk { code, constants } };
    let mut vm = VM::new(Rc::new(f));
    vm.run(FUEL)
}

#[test]
fn if_true_takes_the_consequent() {
    assert_eq!(eval_ok("if true 1 2"), Value::Int(1));
}

#[test]
fn if_false_takes_the_alternative() {
    assert_eq!(eval_ok("if false 1 2"), Value::Int(2));
}

#[test]
fn let_binds_and_doubles() {
    assert_eq!(eval_ok("let x 5 (+ x x)"), Value::Int(10));
}

#[test]
fn nested_lets_stack_their_slots() {
    assert_eq!(eval_ok("let a 1 let b 2 (+ a b)"), Value::Int(3));
}

#[test]
fn fibonacci_by_explicit_threading() {
    // recursion works by passing the function and every needed built-in
    // through the parameter list at each call site
    let src = "let fib |fib plus minus below n| if (below n 2) n (plus (fib fib plus minus below (minus n 1)) (fib fib plus minus below (minus n 2))) (fib fib + - < 10)";
    assert_eq!(eval_ok(src), Value::Int(55));
}

#[test]
fn recursion_ten_thousand_deep_runs_on_the_explicit_stacks() {
    let src = "let f |f lt sub n| if (lt n 1) 0 (f f lt sub (sub n 1)) (f f < - 10000)";
    assert_eq!(eval_ok(src), Value::Int(0));
}

#[test]
fn wrong_argument_count_is_fatal() {
    assert_eq!(eval("(|x| x 1 2)"), Err(VmError::ArityMismatch));
    assert_eq!(eval("(|x y| x 1)"), Err(VmError::ArityMismatch));
}

#[test]
fn built_in_arity_is_checked_too() {
    assert_eq!(eval("(not 1 2)"), Err(VmError::ArityMismatch));
}

#[test]
fn calling_a_non_callable_value_is_fatal() {
    assert_eq!(eval("(1 2)"), Err(VmError::NotCallable));
}

#[test]
fn unsupported_native_operands_are_fatal() {
    assert_eq!(eval("(+ 1 true)"), Err(VmError::NativeOperands));
    assert_eq!(eval("(< nil 1)"), Err(VmError::NativeOperands));
}

#[test]
fn arithmetic_built_ins() {
    assert_eq!(eval_ok("(+ 2 3)"), Value::Int(5));
    assert_eq!(eval_ok("(- 5 3)"), Value::Int(2));
    assert_eq!(eval_ok("(- 3 5)"), Value::Int(-2));
}

#[test]
fn comparison_built_ins() {
    assert_eq!(eval_ok("(= 1 1)"), Value::Bool(true));
    assert_eq!(eval_ok("(= 1 2)"), Value::Bool(false));
    assert_eq!(eval_ok("(not= 1 2)"), Value::Bool(true));
    assert_eq!(eval_ok("(not= 1 1)"), Value::Bool(false));
    assert_eq!(eval_ok("(< 1 2)"), Value::Bool(true));
    assert_eq!(eval_ok("(< 2 1)"), Value::Bool(false));
    assert_eq!(eval_ok("(<= 2 2)"), Value::Bool(true));
    assert_eq!(eval_ok("(<= 3 2)"), Value::Bool(false));
}

#[test]
fn negation_follows_truthiness() {
    assert_eq!(eval_ok("(not nil)"), Value::Bool(true));
    assert_eq!(eval_ok("(not false)"), Value::Bool(true));
    assert_eq!(eval_ok("(not true)"), Value::Bool(false));
    assert_eq!(eval_ok("(not 0)"), Value::Bool(false));
}

#[test]
fn addition_wraps_at_the_fixed_width() {
    assert_eq!(eval_ok("(+ 2147483647 1)"), Value::Int(i32::MIN));
    assert_eq!(eval_ok("(- -2147483648 1)"), Value::Int(i32::MAX));
}

#[test]
fn only_false_and_nil_are_falsey() {
    assert_eq!(eval_ok("if 0 1 2"), Value::Int(1));
    assert_eq!(eval_ok("if nil 1 2"), Value::Int(2));
    assert_eq!(eval_ok("if \"\" 1 2"), Value::Int(1));
}

#[test]
fn literals_evaluate_to_themselves() {
    assert_eq!(eval_ok("nil"), Value::Nil);
    assert_eq!(eval_ok("true"), Value::Bool(true));
    assert_eq!(eval_ok("false"), Value::Bool(false));
    assert_eq!(eval_ok("-12"), Value::Int(-12));
    assert_eq!(eval_ok("'A'"), Value::Int(65));
    match eval_ok("\"hi\"") {
        Value::String(s) => {
            let bytes: &[u8] = &s;
            assert_eq!(bytes, &b"hi"[..]);
        },
        other => panic!("expected a string, got {:?}", other),
    }
}

#[test]
fn an_inner_let_shadows_an_outer_one() {
    assert_eq!(eval_ok("let x 1 let x 2 x"), Value::Int(2));
}

#[test]
fn a_repeated_parameter_resolves_to_its_latest_binding() {
    assert_eq!(eval_ok("(|x x| x 1 2)"), Value::Int(2));
}

#[test]
fn a_block_keeps_only_its_last_value() {
    assert_eq!(eval_ok("1\n2\n3"), Value::Int(3));
}

#[test]
fn call_results_chain_into_further_calls() {
    assert_eq!(eval_ok("((|a| |b| 9 5) 6)"), Value::Int(9));
}

#[test]
fn zero_fuel_pauses_and_the_machine_resumes() {
    let f = compile(b"(+ 20 22)").unwrap();
    let mut vm = VM::new(Rc::new(f));
    assert!(vm.run(0).is_none());
    assert_eq!(vm.run(FUEL), Some(Ok(Value::Int(42))));
}

#[test]
fn single_step_budget_pauses_mid_program() {
    let f = compile(b"(+ 20 22)").unwrap();
    let mut vm = VM::new(Rc::new(f));
    assert!(vm.run(1).is_none());
    assert!(vm.run(1).is_none());
    assert_eq!(vm.run(FUEL), Some(Ok(Value::Int(42))));
}

#[test]
fn executing_a_leftover_placeholder_is_its_own_fatal_condition() {
    let r = run_chunk(vec![Op::Unreachable], vec![]);
    assert_eq!(r, Some(Err(VmError::PlaceholderExecuted)));
}

#[test]
fn popping_past_the_built_ins_underflows() {
    // the seven built-in values are all that stand on a fresh stack
    let code = vec![Op::Pop; 8];
    assert_eq!(run_chunk(code, vec![]), Some(Err(VmError::StackUnderflow)));
}

#[test]
fn a_finished_machine_has_no_frame_to_run() {
    let f = compile(b"1").unwrap();
    let mut vm = VM::new(Rc::new(f));
    assert_eq!(vm.run(FUEL), Some(Ok(Value::Int(1))));
    assert_eq!(vm.run(FUEL), Some(Err(VmError::NoFrames)));
}

#[test]
fn malformed_chunks_fail_distinctly() {
    assert_eq!(run_chunk(vec![], vec![]), Some(Err(VmError::IpOutOfRange)));
    assert_eq!(
        run_chunk(vec![Op::Constant(3)], vec![]),
        Some(Err(VmError::BadConstant))
    );
    assert_eq!(
        run_chunk(vec![Op::Var(100)], vec![]),
        Some(Err(VmError::BadLocal))
    );
    assert_eq!(
        run_chunk(vec![Op::Jump(9)], vec![]),
        Some(Err(VmError::BadJump))
    );
}
