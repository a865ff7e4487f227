use stackscript::engine::{execute, ExecError, ExecErrorKind, RunOutcome, RunStatus};
use stackscript::parser::parse_ignore_comments;
use stackscript::stack::FValue;

fn run(src: &str) -> RunOutcome {
    let tokens = parse_ignore_comments(src).unwrap();
    execute(&tokens, 1_000_000)
}

#[test]
fn hello_world_executes() {
    let r = run("~Hello, world!~ .print .newline");
    assert_eq!(r.status, RunStatus::Finished);
    assert_eq!(r.output, "Hello, world!\n");
    assert_eq!(r.stack.0, vec![]);
}

#[test]
fn addition() {
    let r = run("3 4 .+");
    assert_eq!(r.status, RunStatus::Finished);
    assert_eq!(r.stack.0, vec![FValue::Int(7)]);
    assert_eq!(r.output, "");
}

#[test]
fn division_truncates() {
    let r = run("10 3 ./");
    assert_eq!(r.status, RunStatus::Finished);
    assert_eq!(r.stack.0, vec![FValue::Int(3)]);
    assert_eq!(run("-7 2 ./").stack.0, vec![FValue::Int(-3)]);
    assert_eq!(run("7 -2 ./").stack.0, vec![FValue::Int(-3)]);
}

#[test]
fn modulo() {
    let r = run("10 3 .mod");
    assert_eq!(r.status, RunStatus::Finished);
    assert_eq!(r.stack.0, vec![FValue::Int(1)]);
    assert_eq!(run("-7 2 .mod").stack.0, vec![FValue::Int(-1)]);
}

#[test]
fn subtraction_and_multiplication() {
    assert_eq!(run("10 3 .-").stack.0, vec![FValue::Int(7)]);
    assert_eq!(run("10 3 .*").stack.0, vec![FValue::Int(30)]);
}

#[test]
fn comparisons_yield_integer_flags() {
    assert_eq!(run("5 5 .=?").stack.0, vec![FValue::Int(1)]);
    assert_eq!(run("5 6 .=?").stack.0, vec![FValue::Int(0)]);
    assert_eq!(run("5 3 .>?").stack.0, vec![FValue::Int(1)]);
    assert_eq!(run("3 5 .>?").stack.0, vec![FValue::Int(0)]);
}

#[test]
fn loop_counts_to_ten() {
    let r = run("1 .dup .print .newline 1 .+ .dup 11 .swap .>? -10 .cjump ~end~ .print .newline");
    assert_eq!(r.status, RunStatus::Finished);
    assert_eq!(r.output, "1\n2\n3\n4\n5\n6\n7\n8\n9\n10\nend\n");
}

#[test]
fn pop_from_empty_stack_underflows() {
    let r = run(".print");
    assert_eq!(
        r.status,
        RunStatus::Failed(ExecError { kind: ExecErrorKind::StackUnderflow, pc: 0 })
    );
    assert_eq!(r.output, "");
}

#[test]
fn underflow_mid_run_keeps_the_output_so_far() {
    let r = run("~a~ .print .+");
    assert_eq!(
        r.status,
        RunStatus::Failed(ExecError { kind: ExecErrorKind::StackUnderflow, pc: 2 })
    );
    assert_eq!(r.output, "a");
}

#[test]
fn every_popping_operator_underflows_on_empty() {
    for src in [".+", ".-", ".*", "./", ".mod", ".=?", ".>?", ".dup", ".swap", ".cjump"] {
        let r = run(src);
        assert_eq!(
            r.status,
            RunStatus::Failed(ExecError { kind: ExecErrorKind::StackUnderflow, pc: 0 }),
        );
    }
}

#[test]
fn arithmetic_on_text_is_a_type_mismatch() {
    let r = run("~a~ 1 .+");
    assert_eq!(
        r.status,
        RunStatus::Failed(ExecError { kind: ExecErrorKind::TypeMismatch, pc: 2 })
    );
    let r = run("1 ~a~ .+");
    assert_eq!(
        r.status,
        RunStatus::Failed(ExecError { kind: ExecErrorKind::TypeMismatch, pc: 2 })
    );
}

#[test]
fn jump_on_text_is_a_type_mismatch() {
    let r = run("1 ~a~ .cjump");
    assert_eq!(
        r.status,
        RunStatus::Failed(ExecError { kind: ExecErrorKind::TypeMismatch, pc: 2 })
    );
}

#[test]
fn division_by_zero_is_fatal() {
    let r = run("1 0 ./");
    assert_eq!(
        r.status,
        RunStatus::Failed(ExecError { kind: ExecErrorKind::DivisionByZero, pc: 2 })
    );
    let r = run("1 0 .mod");
    assert_eq!(
        r.status,
        RunStatus::Failed(ExecError { kind: ExecErrorKind::DivisionByZero, pc: 2 })
    );
}

#[test]
fn jump_out_of_range_terminates_normally() {
    // forward past the end
    let r = run("1 100 .cjump ~skipped~ .print");
    assert_eq!(r.status, RunStatus::Finished);
    assert_eq!(r.output, "");
    // backward before the start: must not wrap around an unsigned index
    let r = run("1 -100 .cjump ~skipped~ .print");
    assert_eq!(r.status, RunStatus::Finished);
    assert_eq!(r.output, "");
}

#[test]
fn jump_to_exact_end_terminates_normally() {
    let r = run("1 1 .cjump");
    assert_eq!(r.status, RunStatus::Finished);
    assert_eq!(r.stack.0, vec![]);
}

#[test]
fn untaken_jump_falls_through() {
    let r = run("0 5 .cjump ~here~ .print");
    assert_eq!(r.status, RunStatus::Finished);
    assert_eq!(r.output, "here");
}

#[test]
fn jump_in_place_runs_out_of_steps() {
    let tokens = parse_ignore_comments("1 .dup -2 .cjump").unwrap();
    let r = execute(&tokens, 10);
    assert_eq!(r.status, RunStatus::OutOfSteps);
}

#[test]
fn addition_wraps_around_the_32_bit_range() {
    assert_eq!(run("2147483647 1 .+").stack.0, vec![FValue::Int(i32::MIN)]);
    assert_eq!(run("-2147483648 1 .-").stack.0, vec![FValue::Int(i32::MAX)]);
    assert_eq!(run("65536 65536 .*").stack.0, vec![FValue::Int(0)]);
    assert_eq!(run("65536 32768 .*").stack.0, vec![FValue::Int(i32::MIN)]);
}

#[test]
fn smallest_integer_division_edge() {
    assert_eq!(run("-2147483648 -1 ./").stack.0, vec![FValue::Int(i32::MIN)]);
    assert_eq!(run("-2147483648 -1 .mod").stack.0, vec![FValue::Int(0)]);
}

#[test]
fn dup_and_swap_work_on_any_value() {
    let r = run("~a~ .dup .print .print");
    assert_eq!(r.output, "aa");
    let r = run("~a~ ~b~ .swap .print .newline .print");
    assert_eq!(r.output, "a\nb");
    let r = run("1 2 .swap");
    assert_eq!(r.stack.0, vec![FValue::Int(2), FValue::Int(1)]);
}

#[test]
fn print_renders_integers_as_decimal() {
    assert_eq!(run("0 .print").output, "0");
    assert_eq!(run("-5 .print").output, "-5");
    assert_eq!(run("12345 .print").output, "12345");
    assert_eq!(run("-2147483648 .print").output, "-2147483648");
    assert_eq!(run("2147483647 .print").output, "2147483647");
}

#[test]
fn comments_never_reach_the_engine() {
    let r = run("(say nothing) 1 (one is on the stack) .print");
    assert_eq!(r.status, RunStatus::Finished);
    assert_eq!(r.output, "1");
}
