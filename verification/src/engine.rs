//! The execution engine: a single-pass stack machine over a token sequence,
//! with program-counter-relative conditional jumps.
//!
//! The machine's meaning is a small-step transition relation over a ghost
//! `State` (program counter, operand stack, output so far). `step` takes one
//! transition; `run_n` iterates it. The executable `execute` is proved to
//! return exactly what some number of steps of the model reaches.

use crate::parser::{Token, TokenModel, tokens_model};
use crate::stack::{FValue, Stack, ValueModel, int_of, render_value};
use vstd::prelude::*;

verus! {

/// The fatal conditions that abort a run.
#[derive(Debug, Clone, Copy, PartialEq, Eq, Structural)]
pub enum ExecErrorKind {
    StackUnderflow,
    TypeMismatch,
    DivisionByZero,
}

/// A fatal condition together with the position of the offending token.
#[derive(Debug, Clone, Copy, PartialEq, Eq, Structural)]
pub struct ExecError {
    pub kind: ExecErrorKind,
    pub pc: usize,
}

/// The machine state: the index of the next token to execute, the operand
/// stack (top at the end), and the text printed so far.
pub struct State {
    pub pc: int,
    pub stack: Seq<ValueModel>,
    pub out: Seq<char>,
}

/// One transition's result: still running, normally terminated (the program
/// counter left the token sequence), or aborted by a fatal condition. The
/// carried state of `Halted` and `Failed` is absorbing: `advance` keeps it.
pub enum StepResult {
    Running(State),
    Halted(State),
    Failed(State, ExecErrorKind),
}

/// The binary operators: each pops a right and then a left integer operand
/// and pushes one integer result.
#[derive(Debug, Clone, Copy, PartialEq, Eq, Structural)]
pub enum BinOp {
    Add,
    Sub,
    Mul,
    Div,
    Mod,
    Equal,
    LargerThan,
}

/// The binary operator a token stands for, if any.
pub open spec fn binop_of(t: TokenModel) -> Option<BinOp> {
    match t {
        TokenModel::Add => Some(BinOp::Add),
        TokenModel::Sub => Some(BinOp::Sub),
        TokenModel::Mul => Some(BinOp::Mul),
        TokenModel::Div => Some(BinOp::Div),
        TokenModel::Mod => Some(BinOp::Mod),
        TokenModel::Equal => Some(BinOp::Equal),
        TokenModel::LargerThan => Some(BinOp::LargerThan),
        _ => None,
    }
}

pub open spec fn abs_int(a: int) -> int {
    if a < 0 {
        -a
    } else {
        a
    }
}

/// Truncating division, as the language defines it: magnitude quotient,
/// sign by the operands.
pub open spec fn div_trunc(a: int, b: int) -> int {
    if (a < 0) != (b < 0) {
        -(abs_int(a) / abs_int(b))
    } else {
        abs_int(a) / abs_int(b)
    }
}

/// The remainder matching `div_trunc`: magnitude remainder, sign of the
/// left operand.
pub open spec fn rem_trunc(a: int, b: int) -> int {
    if a < 0 {
        -(abs_int(a) % abs_int(b))
    } else {
        abs_int(a) % abs_int(b)
    }
}

/// The quotient as a 32-bit value; the one overflowing case wraps.
pub open spec fn div_value(a: i32, b: i32) -> i32 {
    if a == i32::MIN && b == -1 {
        i32::MIN
    } else {
        div_trunc(a as int, b as int) as i32
    }
}

/// The remainder as a 32-bit value; its magnitude is below `|b|`, so it
/// always fits.
pub open spec fn rem_value(a: i32, b: i32) -> i32 {
    rem_trunc(a as int, b as int) as i32
}

/// What a binary operator pushes, left operand first. Addition,
/// subtraction and multiplication wrap around the 32-bit range; the
/// comparisons push 1 for true and 0 for false, deliberately an integer.
pub open spec fn apply_bin(op: BinOp, a: i32, b: i32) -> i32 {
    match op {
        BinOp::Add => vstd::wrapping::i32_specs::wrapping_add(a, b),
        BinOp::Sub => vstd::wrapping::i32_specs::wrapping_sub(a, b),
        BinOp::Mul => vstd::wrapping::i32_specs::wrapping_mul(a, b),
        BinOp::Div => div_value(a, b),
        BinOp::Mod => rem_value(a, b),
        BinOp::Equal => if a == b {
            1
        } else {
            0
        },
        BinOp::LargerThan => if a > b {
            1
        } else {
            0
        },
    }
}

/// What a binary operator does to the operand stack: the new stack, or the
/// fatal condition. The right operand sits on top and is examined first,
/// so an empty stack underflows before any type is looked at, and a
/// non-integer right operand mismatches before a missing left one
/// underflows.
pub open spec fn bin_result(op: BinOp, stack: Seq<ValueModel>) -> Result<
    Seq<ValueModel>,
    ExecErrorKind,
> {
    if stack.len() < 1 {
        Err(ExecErrorKind::StackUnderflow)
    } else if !(stack.last() is Int) {
        Err(ExecErrorKind::TypeMismatch)
    } else if stack.len() < 2 {
        Err(ExecErrorKind::StackUnderflow)
    } else if !(stack[stack.len() - 2] is Int) {
        Err(ExecErrorKind::TypeMismatch)
    } else if (op == BinOp::Div || op == BinOp::Mod) && int_of(stack.last()) == 0 {
        Err(ExecErrorKind::DivisionByZero)
    } else {
        Ok(
            stack.drop_last().drop_last().push(
                ValueModel::Int(apply_bin(op, int_of(stack[stack.len() - 2]), int_of(stack.last()))),
            ),
        )
    }
}

/// One transition of the machine. A program counter outside the token
/// sequence — before it as well as past it — halts the run normally:
/// termination is a fall-off-the-end condition, and a jump landing out of
/// range must not wrap.
pub open spec fn step(tokens: Seq<TokenModel>, st: State) -> StepResult {
    if !(0 <= st.pc < tokens.len()) {
        StepResult::Halted(st)
    } else {
        let t = tokens[st.pc];
        match binop_of(t) {
            Some(op) => match bin_result(op, st.stack) {
                Ok(stack2) => StepResult::Running(
                    State { pc: st.pc + 1, stack: stack2, out: st.out },
                ),
                Err(k) => StepResult::Failed(st, k),
            },
            None => match t {
                TokenModel::Comment(_) => StepResult::Running(State { pc: st.pc + 1, ..st }),
                TokenModel::Str(s) => StepResult::Running(
                    State { pc: st.pc + 1, stack: st.stack.push(ValueModel::Str(s)), out: st.out },
                ),
                TokenModel::Int(i) => StepResult::Running(
                    State { pc: st.pc + 1, stack: st.stack.push(ValueModel::Int(i)), out: st.out },
                ),
                TokenModel::Dup => if st.stack.len() < 1 {
                    StepResult::Failed(st, ExecErrorKind::StackUnderflow)
                } else {
                    StepResult::Running(
                        State { pc: st.pc + 1, stack: st.stack.push(st.stack.last()), out: st.out },
                    )
                },
                TokenModel::Swap => if st.stack.len() < 2 {
                    StepResult::Failed(st, ExecErrorKind::StackUnderflow)
                } else {
                    StepResult::Running(
                        State {
                            pc: st.pc + 1,
                            stack: st.stack.drop_last().drop_last().push(st.stack.last()).push(
                                st.stack[st.stack.len() - 2],
                            ),
                            out: st.out,
                        },
                    )
                },
                TokenModel::Cjump => if st.stack.len() < 1 {
                    StepResult::Failed(st, ExecErrorKind::StackUnderflow)
                } else if !(st.stack.last() is Int) {
                    StepResult::Failed(st, ExecErrorKind::TypeMismatch)
                } else if st.stack.len() < 2 {
                    StepResult::Failed(st, ExecErrorKind::StackUnderflow)
                } else if !(st.stack[st.stack.len() - 2] is Int) {
                    StepResult::Failed(st, ExecErrorKind::TypeMismatch)
                } else {
                    let offset = int_of(st.stack.last());
                    let cond = int_of(st.stack[st.stack.len() - 2]);
                    let stack2 = st.stack.drop_last().drop_last();
                    if cond != 0 {
                        StepResult::Running(
                            State { pc: st.pc + offset, stack: stack2, out: st.out },
                        )
                    } else {
                        StepResult::Running(State { pc: st.pc + 1, stack: stack2, out: st.out })
                    }
                },
                TokenModel::Print => if st.stack.len() < 1 {
                    StepResult::Failed(st, ExecErrorKind::StackUnderflow)
                } else {
                    StepResult::Running(
                        State {
                            pc: st.pc + 1,
                            stack: st.stack.drop_last(),
                            out: st.out + render_value(st.stack.last()),
                        },
                    )
                },
                TokenModel::Newline => StepResult::Running(
                    State { pc: st.pc + 1, stack: st.stack, out: st.out + seq!['\n'] },
                ),
                // the binary operators were dispatched above
                _ => StepResult::Halted(st),
            },
        }
    }
}

/// `step` extended to results: `Halted` and `Failed` absorb.
pub open spec fn advance(tokens: Seq<TokenModel>, r: StepResult) -> StepResult {
    match r {
        StepResult::Running(st) => step(tokens, st),
        _ => r,
    }
}

/// `n` transitions of the machine from `r`.
pub open spec fn run_n(tokens: Seq<TokenModel>, r: StepResult, n: nat) -> StepResult
    decreases n,
{
    if n == 0 {
        r
    } else {
        advance(tokens, run_n(tokens, r, (n - 1) as nat))
    }
}

/// Where every run begins: the first token, an empty stack, no output.
pub open spec fn init_state() -> State {
    State { pc: 0, stack: Seq::<ValueModel>::empty(), out: Seq::<char>::empty() }
}

/// A run that has halted or failed stays so: taking more steps changes
/// nothing.
pub proof fn lemma_run_n_stable(tokens: Seq<TokenModel>, r: StepResult, n: nat, m: nat)
    requires
        n <= m,
        !(run_n(tokens, r, n) is Running),
    ensures
        run_n(tokens, r, m) == run_n(tokens, r, n),
    decreases m,
{
    if m > n {
        lemma_run_n_stable(tokens, r, n, (m - 1) as nat);
    }
}

fn abs_u32(a: i32) -> (m: u32)
    ensures
        m as int == abs_int(a as int),
{
    if a < 0 {
        (-(a as i64)) as u32
    } else {
        a as u32
    }
}

fn div_exec(a: i32, b: i32) -> (r: i32)
    requires
        b != 0,
    ensures
        r == div_value(a, b),
{
    let m1 = abs_u32(a);
    let m2 = abs_u32(b);
    let q = m1 / m2;
    proof {
        assert(m1 as int / m2 as int <= m1 as int) by (nonlinear_arith)
            requires
                m1 as int >= 0,
                m2 as int >= 1,
        ;
    }
    if (a < 0) != (b < 0) {
        (-(q as i64)) as i32
    } else {
        if q > 2147483647 {
            proof {
                // the quotient exceeds the 32-bit range only for the one
                // overflowing division, whose result wraps
                if m2 >= 2 {
                    assert((m1 as int / m2 as int) < 2147483648) by (nonlinear_arith)
                        requires
                            m1 as int >= 0,
                            m1 as int <= 2147483648,
                            m2 as int >= 2,
                    ;
                }
                assert(m2 == 1);
                assert(q == m1);
                assert(a == i32::MIN && b == -1);
            }
            i32::MIN
        } else {
            proof {
                if a == i32::MIN && b == -1 {
                    assert(m1 as int == 2147483648 && m2 as int == 1);
                    assert(m1 as int / m2 as int == 2147483648) by (nonlinear_arith)
                        requires
                            m1 as int == 2147483648,
                            m2 as int == 1,
                    ;
                    assert(false);
                }
            }
            q as i32
        }
    }
}

fn rem_exec(a: i32, b: i32) -> (r: i32)
    requires
        b != 0,
    ensures
        r == rem_value(a, b),
{
    let m1 = abs_u32(a);
    let m2 = abs_u32(b);
    let m = m1 % m2;
    if a < 0 {
        (-(m as i64)) as i32
    } else {
        m as i32
    }
}

/// The binary operator a token stands for, decided in executable code.
fn binop_kind(tok: &Token) -> (r: Option<BinOp>)
    ensures
        r == binop_of(tok@),
{
    match tok {
        Token::Add => Some(BinOp::Add),
        Token::Sub => Some(BinOp::Sub),
        Token::Mul => Some(BinOp::Mul),
        Token::Div => Some(BinOp::Div),
        Token::Mod => Some(BinOp::Mod),
        Token::Equal => Some(BinOp::Equal),
        Token::LargerThan => Some(BinOp::LargerThan),
        _ => None,
    }
}

/// Applies one binary operator to the stack, exactly as `bin_result`
/// describes: on a fatal condition the stack is left untouched and the
/// condition is reported.
fn run_bin(op: BinOp, stack: &mut Stack) -> (r: Option<ExecErrorKind>)
    ensures
        match bin_result(op, old(stack)@) {
            Ok(s2) => r is None && final(stack)@ == s2,
            Err(k) => r == Some(k) && final(stack)@ == old(stack)@,
        },
{
    if stack.len() < 1 {
        return Some(ExecErrorKind::StackUnderflow);
    }
    let v2 = match stack.peek(0) {
        FValue::Int(x) => *x,
        FValue::Str(_) => {
            return Some(ExecErrorKind::TypeMismatch);
        },
    };
    if stack.len() < 2 {
        return Some(ExecErrorKind::StackUnderflow);
    }
    let v1 = match stack.peek(1) {
        FValue::Int(x) => *x,
        FValue::Str(_) => {
            return Some(ExecErrorKind::TypeMismatch);
        },
    };
    let res = match op {
        BinOp::Add => v1.wrapping_add(v2),
        BinOp::Sub => v1.wrapping_sub(v2),
        BinOp::Mul => v1.wrapping_mul(v2),
        BinOp::Div => {
            if v2 == 0 {
                return Some(ExecErrorKind::DivisionByZero);
            }
            div_exec(v1, v2)
        },
        BinOp::Mod => {
            if v2 == 0 {
                return Some(ExecErrorKind::DivisionByZero);
            }
            rem_exec(v1, v2)
        },
        BinOp::Equal => if v1 == v2 {
            1
        } else {
            0
        },
        BinOp::LargerThan => if v1 > v2 {
            1
        } else {
            0
        },
    };
    let _ = stack.pop();
    let _ = stack.pop();
    stack.push_int(res);
    proof {
        assert(stack@ =~= old(stack)@.drop_last().drop_last().push(
            ValueModel::Int(apply_bin(op, v1, v2)),
        ));
    }
    None
}

/// The machine is deterministic and a finished run is final, so however
/// many steps two observers take, a run that has ended shows both the
/// same ending. With this, the outcome `execute` reports is the only one
/// its token sequence has.
pub proof fn lemma_outcome_unique(tokens: Seq<TokenModel>, r: StepResult, n1: nat, n2: nat)
    requires
        !(run_n(tokens, r, n1) is Running),
        !(run_n(tokens, r, n2) is Running),
    ensures
        run_n(tokens, r, n1) == run_n(tokens, r, n2),
{
    if n1 <= n2 {
        lemma_run_n_stable(tokens, r, n1, n2);
    } else {
        lemma_run_n_stable(tokens, r, n2, n1);
    }
}

/// The run of `tokens` can halt normally, leaving exactly this stack and
/// this output.
pub open spec fn halts_with(tokens: Seq<TokenModel>, stack: Seq<ValueModel>, out: Seq<char>) -> bool {
    exists|n: nat, p: int|
        run_n(tokens, StepResult::Running(init_state()), n) == StepResult::Halted(
            (State { pc: p, stack: stack, out: out }),
        )
}

/// The run of `tokens` aborts with the fatal condition `e`, and this stack
/// and this output are the state at the offending token.
pub open spec fn fails_with(
    tokens: Seq<TokenModel>,
    e: ExecError,
    stack: Seq<ValueModel>,
    out: Seq<char>,
) -> bool {
    exists|n: nat|
        run_n(tokens, StepResult::Running(init_state()), n) == StepResult::Failed(
            (State { pc: e.pc as int, stack: stack, out: out }),
            e.kind,
        )
}

/// After exactly `fuel` steps the run of `tokens` is still going, with
/// this stack and this output.
pub open spec fn running_after(
    tokens: Seq<TokenModel>,
    fuel: nat,
    stack: Seq<ValueModel>,
    out: Seq<char>,
) -> bool {
    exists|p: int|
        run_n(tokens, StepResult::Running(init_state()), fuel) == StepResult::Running(
            (State { pc: p, stack: stack, out: out }),
        )
}

/// How a run ended: it fell off the end of the token sequence, a fatal
/// condition aborted it, or the step budget ran out while it was still
/// going.
#[derive(Debug, Clone, Copy, PartialEq, Eq, Structural)]
pub enum RunStatus {
    Finished,
    Failed(ExecError),
    OutOfSteps,
}

/// What one whole run leaves behind: the final operand stack, everything
/// the program printed — on a fatal condition, everything printed up to
/// it — and how the run ended.
#[derive(Debug)]
pub struct RunOutcome {
    pub stack: Stack,
    pub output: String,
    pub status: RunStatus,
}

/// Runs a token sequence from the initial state, taking at most
/// `max_steps` transitions. The result is exactly what that many steps of
/// the machine model reach: normal termination with the final stack and
/// output, a fatal condition with the state at the offending token, or —
/// since a program may jump in place forever — a run still going when the
/// budget ends, reported as such with the state it reached.
pub fn execute(tokens: &Vec<Token>, max_steps: u64) -> (r: RunOutcome)
    ensures
        match r.status {
            RunStatus::Finished => halts_with(tokens_model(tokens@), r.stack@, r.output@),
            RunStatus::Failed(e) => fails_with(tokens_model(tokens@), e, r.stack@, r.output@),
            RunStatus::OutOfSteps => running_after(
                tokens_model(tokens@),
                max_steps as nat,
                r.stack@,
                r.output@,
            ),
        },
{
    let ghost tm = tokens_model(tokens@);
    let ghost start = StepResult::Running(init_state());
    let mut stack = Stack::new();
    let mut output = String::new();
    let mut pc: usize = 0;
    let mut steps: u64 = 0;
    proof {
        assert(init_state().stack =~= stack@);
        assert(init_state().out =~= output@);
    }
    while pc < tokens.len() && steps < max_steps
        invariant
            pc <= tokens@.len(),
            steps <= max_steps,
            tm == tokens_model(tokens@),
            start == StepResult::Running(init_state()),
            run_n(tm, start, steps as nat) == StepResult::Running(
                (State { pc: pc as int, stack: stack@, out: output@ }),
            ),
        decreases max_steps - steps,
    {
        let ghost prev = State { pc: pc as int, stack: stack@, out: output@ };
        let tok = &tokens[pc];
        proof {
            assert(tok@ == tm[pc as int]);
        }
        match binop_kind(tok) {
            Some(op) => {
                match run_bin(op, &mut stack) {
                    None => {
                        pc = pc + 1;
                    },
                    Some(k) => {
                        proof {
                            assert(step(tm, prev) == StepResult::Failed(prev, k));
                            assert(run_n(tm, start, steps as nat + 1) == StepResult::Failed(prev, k));
                            assert(fails_with(tm, (ExecError { kind: k, pc }), stack@, output@));
                        }
                        return RunOutcome { stack, output, status: RunStatus::Failed((ExecError { kind: k, pc })) };
                    },
                }
            },
            None => {
                match tok {
                    Token::Comment(_) => {
                        pc = pc + 1;
                    },
                    Token::Str(s) => {
                        stack.push_str(s.clone());
                        pc = pc + 1;
                    },
                    Token::Int(v) => {
                        stack.push_int(*v);
                        pc = pc + 1;
                    },
                    Token::Dup => {
                        if stack.len() < 1 {
                            proof {
                                assert(run_n(tm, start, steps as nat + 1) == StepResult::Failed(
                                    prev,
                                    ExecErrorKind::StackUnderflow,
                                ));
                                assert(fails_with(
                                    tm,
                                    (ExecError { kind: ExecErrorKind::StackUnderflow, pc }),
                                    stack@,
                                    output@,
                                ));
                            }
                            return RunOutcome {
                                stack,
                                output,
                                status: RunStatus::Failed(
                                    (ExecError { kind: ExecErrorKind::StackUnderflow, pc }),
                                ),
                            };
                        }
                        let top = stack.peek(0).clone();
                        stack.push(top);
                        pc = pc + 1;
                    },
                    Token::Swap => {
                        if stack.len() < 2 {
                            proof {
                                assert(run_n(tm, start, steps as nat + 1) == StepResult::Failed(
                                    prev,
                                    ExecErrorKind::StackUnderflow,
                                ));
                                assert(fails_with(
                                    tm,
                                    (ExecError { kind: ExecErrorKind::StackUnderflow, pc }),
                                    stack@,
                                    output@,
                                ));
                            }
                            return RunOutcome {
                                stack,
                                output,
                                status: RunStatus::Failed(
                                    (ExecError { kind: ExecErrorKind::StackUnderflow, pc }),
                                ),
                            };
                        }
                        let v1 = stack.pop();
                        let v2 = stack.pop();
                        stack.push(v1);
                        stack.push(v2);
                        proof {
                            assert(stack@ =~= prev.stack.drop_last().drop_last().push(
                                prev.stack.last(),
                            ).push(prev.stack[prev.stack.len() - 2]));
                        }
                        pc = pc + 1;
                    },
                    Token::Cjump => {
                        if stack.len() < 1 {
                            proof {
                                assert(run_n(tm, start, steps as nat + 1) == StepResult::Failed(
                                    prev,
                                    ExecErrorKind::StackUnderflow,
                                ));
                                assert(fails_with(
                                    tm,
                                    (ExecError { kind: ExecErrorKind::StackUnderflow, pc }),
                                    stack@,
                                    output@,
                                ));
                            }
                            return RunOutcome {
                                stack,
                                output,
                                status: RunStatus::Failed(
                                    (ExecError { kind: ExecErrorKind::StackUnderflow, pc }),
                                ),
                            };
                        }
                        let offset = match stack.peek(0) {
                            FValue::Int(x) => *x,
                            FValue::Str(_) => {
                                proof {
                                    assert(run_n(tm, start, steps as nat + 1) == StepResult::Failed(
                                        prev,
                                        ExecErrorKind::TypeMismatch,
                                    ));
                                    assert(fails_with(
                                        tm,
                                        (ExecError { kind: ExecErrorKind::TypeMismatch, pc }),
                                        stack@,
                                        output@,
                                    ));
                                }
                                return RunOutcome {
                                    stack,
                                    output,
                                    status: RunStatus::Failed(
                                        (ExecError { kind: ExecErrorKind::TypeMismatch, pc }),
                                    ),
                                };
                            },
                        };
                        if stack.len() < 2 {
                            proof {
                                assert(run_n(tm, start, steps as nat + 1) == StepResult::Failed(
                                    prev,
                                    ExecErrorKind::StackUnderflow,
                                ));
                                assert(fails_with(
                                    tm,
                                    (ExecError { kind: ExecErrorKind::StackUnderflow, pc }),
                                    stack@,
                                    output@,
                                ));
                            }
                            return RunOutcome {
                                stack,
                                output,
                                status: RunStatus::Failed(
                                    (ExecError { kind: ExecErrorKind::StackUnderflow, pc }),
                                ),
                            };
                        }
                        let cond = match stack.peek(1) {
                            FValue::Int(x) => *x,
                            FValue::Str(_) => {
                                proof {
                                    assert(run_n(tm, start, steps as nat + 1) == StepResult::Failed(
                                        prev,
                                        ExecErrorKind::TypeMismatch,
                                    ));
                                    assert(fails_with(
                                        tm,
                                        (ExecError { kind: ExecErrorKind::TypeMismatch, pc }),
                                        stack@,
                                        output@,
                                    ));
                                }
                                return RunOutcome {
                                    stack,
                                    output,
                                    status: RunStatus::Failed(
                                        (ExecError { kind: ExecErrorKind::TypeMismatch, pc }),
                                    ),
                                };
                            },
                        };
                        let _ = stack.pop();
                        let _ = stack.pop();
                        if cond != 0 {
                            let target: i128 = pc as i128 + offset as i128;
                            if 0 <= target && target < tokens.len() as i128 {
                                pc = target as usize;
                            } else {
                                // the jump leaves the token sequence: the
                                // machine is running at an out-of-range
                                // counter, and its next step halts
                                proof {
                                    let landed = State {
                                        pc: prev.pc + offset as int,
                                        stack: stack@,
                                        out: output@,
                                    };
                                    assert(step(tm, prev) == StepResult::Running(landed));
                                    assert(run_n(tm, start, steps as nat + 1) == StepResult::Running(
                                        landed,
                                    ));
                                    assert(step(tm, landed) == StepResult::Halted(landed));
                                    assert(run_n(tm, start, steps as nat + 2) == StepResult::Halted(
                                        landed,
                                    ));
                                    assert(halts_with(tm, stack@, output@)) by {
                                        assert(run_n(tm, start, steps as nat + 2)
                                            == StepResult::Halted(
                                            (State {
                                                pc: landed.pc,
                                                stack: stack@,
                                                out: output@,
                                            }),
                                        ));
                                    }
                                }
                                return RunOutcome { stack, output, status: RunStatus::Finished };
                            }
                        } else {
                            pc = pc + 1;
                        }
                    },
                    Token::Print => {
                        if stack.len() < 1 {
                            proof {
                                assert(run_n(tm, start, steps as nat + 1) == StepResult::Failed(
                                    prev,
                                    ExecErrorKind::StackUnderflow,
                                ));
                                assert(fails_with(
                                    tm,
                                    (ExecError { kind: ExecErrorKind::StackUnderflow, pc }),
                                    stack@,
                                    output@,
                                ));
                            }
                            return RunOutcome {
                                stack,
                                output,
                                status: RunStatus::Failed(
                                    (ExecError { kind: ExecErrorKind::StackUnderflow, pc }),
                                ),
                            };
                        }
                        let v = stack.pop();
                        let txt = v.to_string();
                        output.append(txt.as_str());
                        pc = pc + 1;
                    },
                    Token::Newline => {
                        proof {
                            reveal_strlit("\n");
                            assert("\n"@ =~= seq!['\n']);
                        }
                        output.append("\n");
                        pc = pc + 1;
                    },
                    _ => {
                        // the binary operators were dispatched above
                        proof {
                            assert(false);
                        }
                    },
                }
            },
        }
        proof {
            let cur = State { pc: pc as int, stack: stack@, out: output@ };
            assert(step(tm, prev) == StepResult::Running(cur));
            assert(run_n(tm, start, steps as nat + 1) == StepResult::Running(cur));
        }
        steps = steps + 1;
    }
    if pc < tokens.len() {
        proof {
            assert(steps == max_steps);
            assert(running_after(tm, max_steps as nat, stack@, output@)) by {
                assert(run_n(tm, start, max_steps as nat) == StepResult::Running(
                    (State { pc: pc as int, stack: stack@, out: output@ }),
                ));
            }
        }
        RunOutcome { stack, output, status: RunStatus::OutOfSteps }
    } else {
        proof {
            let cur = State { pc: pc as int, stack: stack@, out: output@ };
            assert(step(tm, cur) == StepResult::Halted(cur));
            assert(run_n(tm, start, steps as nat + 1) == StepResult::Halted(cur));
            assert(halts_with(tm, stack@, output@)) by {
                assert(run_n(tm, start, steps as nat + 1) == StepResult::Halted(
                    (State { pc: pc as int, stack: stack@, out: output@ }),
                ));
            }
        }
        RunOutcome { stack, output, status: RunStatus::Finished }
    }
}

/// The token kinds that pop at least one value from the stack.
pub open spec fn pops_value(t: TokenModel) -> bool {
    binop_of(t) is Some || t is Dup || t is Swap || t is Cjump || t is Print
}

/// Fatal-path law: when a run reaches a state whose stack is empty and
/// whose current token pops a value, the run aborts with `StackUnderflow`
/// at that token — every longer run ends in that same failure — and the
/// output produced up to the failure is kept in the failed state.
pub proof fn lemma_underflow_aborts(tokens: Seq<TokenModel>, st: State, n: nat, m: nat)
    requires
        run_n(tokens, StepResult::Running(init_state()), n) == StepResult::Running(st),
        0 <= st.pc < tokens.len(),
        pops_value(tokens[st.pc]),
        st.stack.len() == 0,
        m > n,
    ensures
        run_n(tokens, StepResult::Running(init_state()), m) == StepResult::Failed(
            st,
            ExecErrorKind::StackUnderflow,
        ),
{
    let start = StepResult::Running(init_state());
    assert(step(tokens, st) == StepResult::Failed(st, ExecErrorKind::StackUnderflow));
    assert(run_n(tokens, start, n + 1) == StepResult::Failed(st, ExecErrorKind::StackUnderflow));
    lemma_run_n_stable(tokens, start, n + 1, m);
}

} // verus!
