//! Virtual-machine, whole-pipeline and scenario tests.

use tinyc_in_rust::codegen::compile;
use tinyc_in_rust::compile_and_run;
use tinyc_in_rust::lexer::ErrorKind;
use tinyc_in_rust::parser::parse;
use tinyc_in_rust::codegen::Insn;
use tinyc_in_rust::vm::VM;
use tinyc_in_rust::vm::VmFault;
use tinyc_in_rust::RunError;

fn examples() -> Vec<&'static str> {
    vec![
        "a=b=c=2<3;",
        "{ i=1; while (i<100) i=i+i; }",
        "{ i=125; j=100; while (i-j) if (i<j) j=j-i; else i=i-j; }",
        "{ i=1; do i=i+10; while (i<50); }",
        "{ i=1; while ((i=i+10)<50) ; }",
        "{ i=7; if (i<5) x=1; if (i<10) y=2; }",
        "{ m=n=1;k=10; while (0 < k) { t = m; m = n; n = t + n; k = k - 1; }}",
    ]
}

fn run_program(src: &str) -> Vec<(char, isize)> {
    let mut vm = VM::new();
    compile_and_run(&mut vm, src).unwrap()
}

#[test]
fn test_run_examples() {
    for ex in examples() {
        let mut vm = VM::new();
        assert!(vm.run(compile(parse(ex).unwrap()).unwrap()).is_ok());
    }
}

// *** Scenarios: the reported nonzero globals of whole programs ***

#[test]
fn scenario_chained_assignment() {
    assert_eq!(run_program("a=b=c=2<3;"), vec![('a', 1), ('b', 1), ('c', 1)]);
}

#[test]
fn scenario_while_doubling() {
    assert_eq!(run_program("{ i=1; while (i<100) i=i+i; }"), vec![('i', 128)]);
}

#[test]
fn scenario_gcd() {
    assert_eq!(
        run_program("{ i=125; j=100; while (i-j) if (i<j) j=j-i; else i=i-j; }"),
        vec![('i', 25), ('j', 25)],
    );
}

#[test]
fn scenario_do_while() {
    assert_eq!(run_program("{ i=1; do i=i+10; while (i<50); }"), vec![('i', 51)]);
}

#[test]
fn scenario_assignment_in_condition() {
    assert_eq!(run_program("{ i=1; while ((i=i+10)<50) ; }"), vec![('i', 51)]);
}

#[test]
fn scenario_if_suppressed_zero() {
    assert_eq!(
        run_program("{ i=7; if (i<5) x=1; if (i<10) y=2; }"),
        vec![('i', 7), ('y', 2)],
    );
}

#[test]
fn scenario_fibonacci() {
    assert_eq!(
        run_program("{ m=n=1;k=10; while (0 < k) { t = m; m = n; n = t + n; k = k - 1; }}"),
        vec![('m', 89), ('n', 144), ('t', 55)],
    );
}

#[test]
fn scenario_report_is_sorted_by_letter() {
    assert_eq!(run_program("{ z=5; c=1; }"), vec![('c', 1), ('z', 5)]);
}

#[test]
fn scenario_illegal_character() {
    let mut vm = VM::new();
    let r = compile_and_run(&mut vm, "$");
    match r {
        Err(RunError::Syntax(e)) => {
            assert_eq!(e.kind, ErrorKind::IllegalToken);
            assert_eq!((e.pos.line, e.pos.col), (1, 1));
        },
        _ => panic!("expected a lexical error"),
    }
    // No output lines: every global is still zero.
    assert_eq!(vm.nonzero_globals(), vec![]);
}

// *** Re-running and persistence ***

#[test]
fn rerun_same_code_same_result() {
    let code1 = compile(parse("{ i=1; while (i<100) i=i+i; }").unwrap()).unwrap();
    let code2 = compile(parse("{ i=1; while (i<100) i=i+i; }").unwrap()).unwrap();
    let mut vm1 = VM::new();
    let mut vm2 = VM::new();
    vm1.run(code1).unwrap();
    vm2.run(code2).unwrap();
    assert_eq!(vm1.globals, vm2.globals);
}

#[test]
fn globals_persist_across_runs() {
    let mut vm = VM::new();
    assert_eq!(compile_and_run(&mut vm, "a = 1;").unwrap(), vec![('a', 1)]);
    assert_eq!(
        compile_and_run(&mut vm, "b = a + 1;").unwrap(),
        vec![('a', 1), ('b', 2)],
    );
}

#[test]
fn sequential_runs_equal_concatenated_program() {
    let mut vm = VM::new();
    compile_and_run(&mut vm, "a = 2;").unwrap();
    compile_and_run(&mut vm, "b = a + 3;").unwrap();
    let mut vm2 = VM::new();
    compile_and_run(&mut vm2, "{ a = 2; b = a + 3; }").unwrap();
    assert_eq!(vm.globals, vm2.globals);

    let mut vm3 = VM::new();
    compile_and_run(&mut vm3, "{ i=2; do i=i+i; while (i<9); }").unwrap();
    compile_and_run(&mut vm3, "{ if (i<20) j=i-1; else j=0; }").unwrap();
    let mut vm4 = VM::new();
    compile_and_run(
        &mut vm4,
        "{ { i=2; do i=i+i; while (i<9); } { if (i<20) j=i-1; else j=0; } }",
    )
    .unwrap();
    assert_eq!(vm3.globals, vm4.globals);
}

// *** Machine faults on malformed instruction streams ***

#[test]
fn fault_stack_underflow() {
    let mut vm = VM::new();
    assert_eq!(vm.run(vec![Insn::Pop, Insn::Halt]), Err(VmFault::StackUnderflow));
}

#[test]
fn fault_operand_as_opcode() {
    let mut vm = VM::new();
    assert_eq!(vm.run(vec![Insn::Integer(1)]), Err(VmFault::BadInstruction));
    let mut vm = VM::new();
    assert_eq!(vm.run(vec![Insn::Address(0)]), Err(VmFault::BadInstruction));
}

#[test]
fn fault_missing_operand() {
    let mut vm = VM::new();
    assert_eq!(vm.run(vec![Insn::Push]), Err(VmFault::BadInstruction));
}

#[test]
fn fault_pc_out_of_range() {
    let mut vm = VM::new();
    assert_eq!(vm.run(vec![]), Err(VmFault::BadInstruction));
}

#[test]
fn fault_global_out_of_range() {
    let mut vm = VM::new();
    assert_eq!(
        vm.run(vec![Insn::Fetch, Insn::Address(26), Insn::Halt]),
        Err(VmFault::GlobalOutOfRange),
    );
}

#[test]
fn fault_arithmetic_overflow() {
    let mut vm = VM::new();
    assert_eq!(
        vm.run(vec![
            Insn::Push,
            Insn::Integer(isize::MAX),
            Insn::Push,
            Insn::Integer(1),
            Insn::Add,
            Insn::Halt,
        ]),
        Err(VmFault::Overflow),
    );
    let mut vm = VM::new();
    assert_eq!(
        vm.run(vec![
            Insn::Push,
            Insn::Integer(isize::MIN),
            Insn::Push,
            Insn::Integer(1),
            Insn::Sub,
            Insn::Halt,
        ]),
        Err(VmFault::Overflow),
    );
}

// *** Tracing ***

#[test]
fn trace_records_executed_slots() {
    let mut vm = VM::new();
    vm.trace_on();
    let code = compile(parse("a = 42;").unwrap()).unwrap();
    vm.run(code).unwrap();
    assert_eq!(vm.trace, vec![0, 2, 4, 5]);
}
