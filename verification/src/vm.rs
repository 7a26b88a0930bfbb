//! The stack machine that runs a chunk.
use vstd::prelude::*;
use vstd::string::*;
use crate::chunk::{Chunk, OpCode};
use crate::compiler::{compile_reach, is_compiled, Compiler};
use crate::error::texts;
use crate::scanner::tokens_from;
use crate::syntax::Expr;
use crate::token::Token;
use crate::debug::{disassemble_instruction, disassembled};
use crate::host::{ArithOp, Host, NumberOrder};
use crate::text::{decimal, decimal_string, pad_left, padded_left};
use crate::value::{print_value, shows_as, Value, ValueView};

verus! {

/// The most values that the stack holds.
pub const STACK_MAX: usize = 256;

/// The sign bit of a double.
pub const SIGN_BIT: u64 = 0x8000_0000_0000_0000;

/// How running a source ended.
#[derive(Debug, Clone, Copy, PartialEq, Eq, Structural)]
pub enum InterpretResult {
    Success,
    CompileError,
    RuntimeError,
}

/// The machine: the chunk it runs, the index of the next instruction, the
/// stack, what it has printed, what it has reported, and, where tracing is
/// on, the trace.
pub struct VM {
    pub chunk: Chunk,
    pub ip: usize,
    pub stack: Vec<Value>,
    pub output: Vec<String>,
    pub diagnostics: Vec<String>,
    pub trace: bool,
    pub trace_log: Vec<String>,
}

/// The number of values that an instruction takes from the stack.
pub open spec fn operands(op: OpCode) -> nat {
    match op {
        OpCode::OpConstant(_) | OpCode::OpNil | OpCode::OpTrue | OpCode::OpFalse => 0,
        OpCode::OpNot | OpCode::OpNegate | OpCode::OpReturn => 1,
        _ => 2,
    }
}

/// The operation of arithmetic that an instruction stands for.
pub open spec fn arith_of(op: OpCode) -> Option<ArithOp> {
    match op {
        OpCode::OpAdd => Some(ArithOp::Add),
        OpCode::OpSubtract => Some(ArithOp::Subtract),
        OpCode::OpMultiply => Some(ArithOp::Multiply),
        OpCode::OpDivide => Some(ArithOp::Divide),
        _ => None,
    }
}

/// The message with which an instruction fails on a stack, if it fails: a
/// stack too short or too full, a constant that is not in the table, or
/// operands of the wrong kind.
pub open spec fn fault_of(op: OpCode, constants: Seq<ValueView>, stack: Seq<ValueView>) -> Option<
    Seq<char>,
> {
    let n = stack.len() as int;
    if n < operands(op) {
        Some("Stack underflow."@)
    } else {
        match op {
            OpCode::OpConstant(k) => if k >= constants.len() {
                Some("Unknown constant."@)
            } else if n >= STACK_MAX {
                Some("Stack overflow."@)
            } else {
                None
            },
            OpCode::OpNil | OpCode::OpTrue | OpCode::OpFalse => if n >= STACK_MAX {
                Some("Stack overflow."@)
            } else {
                None
            },
            OpCode::OpGreater | OpCode::OpLess | OpCode::OpSubtract | OpCode::OpMultiply
            | OpCode::OpDivide => if stack[n - 1] is Number && stack[n - 2] is Number {
                None
            } else {
                Some("Operands must be numbers."@)
            },
            OpCode::OpAdd => if (stack[n - 1] is Number && stack[n - 2] is Number) || (stack[n
                - 1] is Text && stack[n - 2] is Text) {
                None
            } else {
                Some("Operands must be two numbers or two strings."@)
            },
            OpCode::OpNegate => if stack[n - 1] is Number {
                None
            } else {
                Some("Operand must be a number."@)
            },
            _ => None,
        }
    }
}

/// What an instruction that does not fail pushes in place of its operands.
pub open spec fn pushes<H: Host>(
    host: &H,
    op: OpCode,
    constants: Seq<ValueView>,
    stack: Seq<ValueView>,
    pushed: ValueView,
) -> bool {
    let n = stack.len() as int;
    match op {
        OpCode::OpConstant(k) => pushed == constants[k as int],
        OpCode::OpNil => pushed == ValueView::Nil,
        OpCode::OpTrue => pushed == ValueView::Bool(true),
        OpCode::OpFalse => pushed == ValueView::Bool(false),
        OpCode::OpEqual => match (stack[n - 2], stack[n - 1]) {
            (ValueView::Number(a), ValueView::Number(b)) => exists|order: NumberOrder|
                call_ensures(H::compare, (host, a, b), order) && pushed == ValueView::Bool(
                    order == NumberOrder::Equal,
                ),
            (a, b) => pushed == ValueView::Bool(a.equal_to(b, NumberOrder::Unordered)),
        },
        OpCode::OpGreater => match (stack[n - 2], stack[n - 1]) {
            (ValueView::Number(a), ValueView::Number(b)) => exists|order: NumberOrder|
                call_ensures(H::compare, (host, a, b), order) && pushed == ValueView::Bool(
                    order == NumberOrder::Greater,
                ),
            _ => false,
        },
        OpCode::OpLess => match (stack[n - 2], stack[n - 1]) {
            (ValueView::Number(a), ValueView::Number(b)) => exists|order: NumberOrder|
                call_ensures(H::compare, (host, a, b), order) && pushed == ValueView::Bool(
                    order == NumberOrder::Less,
                ),
            _ => false,
        },
        OpCode::OpAdd | OpCode::OpSubtract | OpCode::OpMultiply | OpCode::OpDivide => match (
            stack[n - 2],
            stack[n - 1],
        ) {
            (ValueView::Number(a), ValueView::Number(b)) => pushed matches ValueView::Number(r)
                && call_ensures(H::arith, (host, arith_of(op)->0, a, b), r),
            (ValueView::Text(a), ValueView::Text(b)) => pushed == ValueView::Text(a + b),
            _ => false,
        },
        OpCode::OpNot => pushed == ValueView::Bool(stack[n - 1].falsey()),
        OpCode::OpNegate => match stack[n - 1] {
            ValueView::Number(a) => pushed == ValueView::Number(a ^ SIGN_BIT),
            _ => false,
        },
        OpCode::OpReturn => false,
    }
}

/// `states` is a run that ends as `r`: each state follows from the one
/// before it by one instruction, and the run ends with the instruction that
/// ends it, or, if `ended` is false, behind the last instruction of the
/// chunk, which counts as success.
pub open spec fn is_run<H: Host>(
    host: &H,
    states: Seq<VM>,
    ended: bool,
    r: InterpretResult,
) -> bool {
    &&& states.len() >= 1
    &&& forall|i: int|
        0 <= i < states.len() - 1 ==> (#[trigger] states[i + 1]).follows_step(
            &states[i],
            host,
            if ended && i == states.len() - 2 {
                Some(r)
            } else {
                None
            },
        )
    &&& ended ==> states.len() >= 2
    &&& !ended ==> states.last().ip >= states.last().chunk.code@.len() && r
        == InterpretResult::Success
}

/// `source` was compiled and run on the machine `before`: the tokens of
/// the source say the expression `e`, `states` is a run of its bytecode
/// from the first instruction on that ends as `r`, on the stack of `before`,
/// which is emptied first if it was over-full, and `after` is where the run
/// ended.
pub open spec fn is_interpreted<H: Host>(
    host: &H,
    source: Seq<char>,
    before: VM,
    tokens: Seq<Token>,
    e: Expr,
    states: Seq<VM>,
    ended: bool,
    after: VM,
    r: InterpretResult,
) -> bool {
    &&& is_run(host, states, ended, r)
    &&& is_compiled(host, source, tokens, e, states[0].chunk)
    &&& states[0].ip == 0
    &&& states[0].stack@ =~= (if before.stack@.len() > STACK_MAX {
        Seq::empty()
    } else {
        before.stack@
    })
    &&& states[0].output == before.output
    &&& states[0].diagnostics == before.diagnostics
    &&& states.last().same_state(&after)
}

/// The line of the trace for a stack of values that show as `shown`,
/// bottom first: ten blanks, then each value in brackets.
pub open spec fn bracketed(shown: Seq<Seq<char>>) -> Seq<char>
    decreases shown.len(),
{
    if shown.len() == 0 {
        "          "@
    } else {
        bracketed(shown.drop_last()) + "["@ + shown.last() + "]"@
    }
}

/// `line` is the line of the trace for `stack`: its values show as
/// `shown`, one for one, and the line holds them in brackets, bottom first.
pub open spec fn traces_stack<H: Host>(
    host: &H,
    stack: Seq<ValueView>,
    shown: Seq<String>,
    line: Seq<char>,
) -> bool {
    &&& shown.len() == stack.len()
    &&& forall|i: int| 0 <= i < stack.len() ==> shows_as(host, stack[i], #[trigger] shown[i])
    &&& line == bracketed(texts(shown))
}

/// The second line of a runtime error: the line of the instruction that
/// failed.
pub open spec fn in_script(line: nat) -> Seq<char> {
    "[line "@ + padded_left(decimal(line), 4, " "@) + "] in script"@
}

impl VM {
    /// The chunk is in order, the next instruction lies in it or just
    /// behind it, and the stack is not over-full.
    pub open spec fn wf(&self) -> bool {
        &&& self.chunk.wf()
        &&& self.ip <= self.chunk.code@.len()
        &&& self.stack@.len() <= STACK_MAX
    }

    /// The machine after one instruction of `before`, with nothing
    /// printed and nothing reported: the instruction's operands are gone
    /// from the stack and `pushed` lies on it.
    pub open spec fn stepped<H: Host>(&self, before: &VM, host: &H, op: OpCode) -> bool {
        let stack = before.stack.deep_view();
        &&& self.output == before.output
        &&& self.diagnostics == before.diagnostics
        &&& self.stack.deep_view().len() == stack.len() - operands(op) + 1
        &&& self.stack.deep_view().subrange(0, stack.len() - operands(op)) =~= stack.subrange(
            0,
            stack.len() - operands(op),
        )
        &&& pushes(host, op, before.chunk.constants.deep_view(), stack, self.stack.deep_view().last())
    }

    /// The machine after `OpReturn`: the top of the stack is gone and
    /// printed.
    pub open spec fn returned<H: Host>(&self, before: &VM, host: &H) -> bool {
        let stack = before.stack.deep_view();
        &&& self.diagnostics == before.diagnostics
        &&& self.stack.deep_view() =~= stack.drop_last()
        &&& self.output@.len() == before.output@.len() + 1
        &&& self.output@.subrange(0, before.output@.len() as int) =~= before.output@
        &&& shows_as(host, stack.last(), self.output@.last())
    }

    /// The machine after an instruction that failed with `message` on
    /// `line`: the stack is empty, and the message and the line are
    /// reported.
    pub open spec fn faulted(&self, before: &VM, message: Seq<char>, line: nat) -> bool {
        &&& self.output == before.output
        &&& self.stack@.len() == 0
        &&& self.diagnostics@.len() == before.diagnostics@.len() + 2
        &&& self.diagnostics@.subrange(0, before.diagnostics@.len() as int) =~= before.diagnostics@
        &&& self.diagnostics@[before.diagnostics@.len() as int]@ == message
        &&& self.diagnostics@[before.diagnostics@.len() as int + 1]@ == in_script(line)
    }

    /// One instruction takes the machine from `before` to this state, and
    /// `r` says whether and how the run ends with it: an instruction that
    /// fails ends it with a runtime error, `OpReturn` ends it well, and after
    /// every other instruction the machine goes on.
    pub open spec fn follows_step<H: Host>(
        &self,
        before: &VM,
        host: &H,
        r: Option<InterpretResult>,
    ) -> bool {
        &&& before.ip < before.chunk.code@.len()
        &&& self.chunk == before.chunk
        &&& self.ip == before.ip + 1
        &&& ({
            let op = before.chunk.code@[before.ip as int];
            match fault_of(op, before.chunk.constants.deep_view(), before.stack.deep_view()) {
                Some(message) => r == Some(InterpretResult::RuntimeError) && self.faulted(
                    before,
                    message,
                    before.chunk.lines@[before.ip as int] as nat,
                ),
                None => if op == OpCode::OpReturn {
                    r == Some(InterpretResult::Success) && self.returned(before, host)
                } else {
                    r is None && self.stepped(before, host, op)
                },
            }
        })
    }

    /// The two machines are in the same state; their traces may differ.
    pub open spec fn same_state(&self, other: &VM) -> bool {
        &&& self.chunk == other.chunk
        &&& self.ip == other.ip
        &&& self.stack == other.stack
        &&& self.output == other.output
        &&& self.diagnostics == other.diagnostics
    }

    /// A machine with an empty chunk, an empty stack and nothing printed,
    /// reported or traced; tracing is off.
    pub fn new() -> (r: Self)
        ensures
            r.wf(),
            r.chunk.code@.len() == 0,
            r.chunk.constants@.len() == 0,
            r.ip == 0,
            r.stack@.len() == 0,
            r.output@.len() == 0,
            r.diagnostics@.len() == 0,
            !r.trace,
            r.trace_log@.len() == 0,
    {
        VM {
            chunk: Chunk::new(),
            ip: 0,
            stack: Vec::with_capacity(STACK_MAX),
            output: Vec::new(),
            diagnostics: Vec::new(),
            trace: false,
            trace_log: Vec::new(),
        }
    }

    /// Compiles `source` and runs it from its first instruction, on the
    /// stack as it stands. Where the source does not compile, the
    /// compiler's diagnostics are reported and nothing runs.
    pub fn interpret<H: Host>(&mut self, source: &str, host: &H) -> (r: InterpretResult)
        ensures
            old(self).wf() ==> final(self).wf(),
            r == InterpretResult::CompileError ==> final(self).output == old(self).output
                && final(self).stack == old(self).stack && final(self).chunk == old(self).chunk
                && final(self).ip == old(self).ip && final(self).diagnostics@.len() > old(self).diagnostics@.len(),
            r == InterpretResult::RuntimeError ==> final(self).stack@.len() == 0 && final(self).diagnostics@.len() == old(self).diagnostics@.len() + 2,
            r == InterpretResult::Success ==> final(self).diagnostics == old(self).diagnostics,
            r == InterpretResult::CompileError <==> compile_reach(
                tokens_from(source@, 0),
            ).failed is Some,
            r == InterpretResult::CompileError ==> texts(final(self).diagnostics@) =~= texts(
                old(self).diagnostics@,
            ).push(compile_reach(tokens_from(source@, 0)).failed->0),
            r != InterpretResult::CompileError ==> exists|
                tokens: Seq<Token>,
                e: Expr,
                states: Seq<VM>,
                ended: bool,
            | #[trigger]
                is_interpreted(host, source@, *old(self), tokens, e, states, ended, *final(self), r),
    {
        let mut compiler = Compiler::new();
        match compiler.compile(source, host) {
            Some(chunk) => {
                self.chunk = chunk;
                self.ip = 0;
                if self.stack.len() > STACK_MAX {
                    self.reset_stack();
                }
                let ghost start = *self;
                let r = self.run(host);
                proof {
                    let (tokens, e) = choose|tokens: Seq<Token>, e: Expr| #[trigger]
                        is_compiled(host, source@, tokens, e, chunk);
                    let (states, ended) = choose|states: Seq<VM>, ended: bool| #[trigger]
                        is_run(host, states, ended, r) && states[0].same_state(&start)
                            && states.last().same_state(self);
                    assert(is_interpreted(host, source@, *old(self), tokens, e, states, ended, *self, r));
                }
                r
            },
            None => {
                let reports = compiler.diagnostics();
                let mut i: usize = 0;
                proof {
                    assert(texts(reports@) =~= seq![
                        compile_reach(tokens_from(source@, 0)).failed->0,
                    ]);
                }
                while i < reports.len()
                    invariant
                        i <= reports.len(),
                        texts(self.diagnostics@) =~= texts(old(self).diagnostics@) + texts(
                            reports@.take(i as int),
                        ),
                        self.output == old(self).output,
                        self.stack == old(self).stack,
                        self.chunk == old(self).chunk,
                        self.ip == old(self).ip,
                        self.diagnostics@.len() == old(self).diagnostics@.len() + i,
                    decreases reports.len() - i,
                {
                    let ghost kept = self.diagnostics@;
                    let report = reports[i].clone();
                    self.diagnostics.push(report);
                    i += 1;
                    proof {
                        assert(report@ == reports@[i - 1]@);
                        assert(reports@.take(i as int) =~= reports@.take(i - 1).push(
                            reports@[i - 1],
                        ));
                        assert(texts(self.diagnostics@) =~= texts(kept).push(report@));
                        assert(texts(reports@.take(i as int)) =~= texts(reports@.take(i - 1)).push(
                            report@,
                        ));
                    }
                }
                proof {
                    assert(reports@.take(i as int) =~= reports@);
                }
                InterpretResult::CompileError
            },
        }
    }

    /// Runs the chunk from the next instruction on, up to its `OpReturn`,
    /// to the first instruction that fails, or to its end.
    pub fn run<H: Host>(&mut self, host: &H) -> (r: InterpretResult)
        requires
            old(self).wf(),
        ensures
            final(self).wf(),
            final(self).chunk == old(self).chunk,
            r != InterpretResult::CompileError,
            r == InterpretResult::RuntimeError ==> final(self).stack@.len() == 0 && final(self).diagnostics@.len() == old(self).diagnostics@.len() + 2,
            r == InterpretResult::Success ==> final(self).diagnostics == old(self).diagnostics,
            exists|states: Seq<VM>, ended: bool| #[trigger]
                is_run(host, states, ended, r) && states[0].same_state(old(self))
                    && states.last().same_state(final(self)),
    {
        let ghost mut states: Seq<VM> = Seq::empty();
        loop
            invariant
                self.wf(),
                self.chunk == old(self).chunk,
                self.diagnostics == old(self).diagnostics,
                states.len() == 0 ==> self.same_state(old(self)),
                states.len() > 0 ==> states[0].same_state(old(self)) && self.follows_step(
                    &states.last(),
                    host,
                    None,
                ),
                forall|i: int|
                    0 <= i < states.len() - 1 ==> (#[trigger] states[i + 1]).follows_step(
                        &states[i],
                        host,
                        None,
                    ),
            decreases self.chunk.code@.len() - self.ip,
        {
            if self.trace {
                self.trace_step(host);
            }
            let ghost seen = states;
            proof {
                states = states.push(*self);
                assert forall|i: int| 0 <= i < states.len() - 1 implies (
                #[trigger] states[i + 1]).follows_step(&states[i], host, None) by {
                    if i < seen.len() - 1 {
                        assert(states[i + 1] == seen[i + 1]);
                        assert(states[i] == seen[i]);
                    }
                }
            }
            if self.ip >= self.chunk.code.len() {
                proof {
                    assert(is_run(host, states, false, InterpretResult::Success));
                }
                return InterpretResult::Success;
            }
            match self.step(host) {
                Some(result) => {
                    proof {
                        let whole = states.push(*self);
                        assert forall|i: int| 0 <= i < whole.len() - 1 implies (
                        #[trigger] whole[i + 1]).follows_step(
                            &whole[i],
                            host,
                            if i == whole.len() - 2 {
                                Some(result)
                            } else {
                                None
                            },
                        ) by {
                            if i < states.len() - 1 {
                                assert(whole[i + 1] == states[i + 1]);
                                assert(whole[i] == states[i]);
                            }
                        }
                        assert(is_run(host, whole, true, result));
                        assert(whole[0].same_state(old(self)));
                        assert(whole.last().same_state(self));
                    }
                    return result;
                },
                None => {},
            }
        }
    }

    /// Records the stack and the next instruction in the trace: behind
    /// what the trace held, the line of the stack, and then, unless the
    /// machine stands behind the last instruction, the disassembly of the
    /// next one. Nothing else changes.
    fn trace_step<H: Host>(&mut self, host: &H)
        requires
            old(self).wf(),
        ensures
            final(self).chunk == old(self).chunk,
            final(self).ip == old(self).ip,
            final(self).stack == old(self).stack,
            final(self).output == old(self).output,
            final(self).diagnostics == old(self).diagnostics,
            final(self).trace == old(self).trace,
            final(self).trace_log@.len() == old(self).trace_log@.len() + (if old(self).ip < old(self).chunk.code@.len() {
                2int
            } else {
                1int
            }),
            final(self).trace_log@.subrange(0, old(self).trace_log@.len() as int) =~= old(self).trace_log@,
            exists|shown: Seq<String>| #[trigger]
                traces_stack(
                    host,
                    old(self).stack.deep_view(),
                    shown,
                    final(self).trace_log@[old(self).trace_log@.len() as int]@,
                ),
            old(self).ip < old(self).chunk.code@.len() ==> disassembled(
                host,
                old(self).chunk,
                old(self).chunk.code@[old(self).ip as int],
                old(self).ip as nat,
                final(self).trace_log@.last()@,
            ),
    {
        let mut slots = String::from_str("          ");
        let ghost mut shown: Seq<String> = Seq::empty();
        proof {
            assert(texts(shown) =~= Seq::empty());
        }
        let mut i: usize = 0;
        while i < self.stack.len()
            invariant
                *self == *old(self),
                i <= self.stack@.len(),
                shown.len() == i,
                forall|j: int|
                    0 <= j < i ==> shows_as(host, self.stack.deep_view()[j], #[trigger] shown[j]),
                slots@ == bracketed(texts(shown)),
            decreases self.stack.len() - i,
        {
            let text = print_value(&self.stack[i], host);
            slots.append("[");
            slots.append(text.as_str());
            slots.append("]");
            proof {
                let seen = shown;
                shown = shown.push(text);
                assert(self.stack.deep_view()[i as int] == self.stack@[i as int]@);
                assert(texts(shown).drop_last() =~= texts(seen));
                assert(texts(shown).last() == text@);
            }
            i += 1;
        }
        proof {
            assert(self.stack.deep_view().len() == self.stack@.len());
            assert(traces_stack(host, self.stack.deep_view(), shown, slots@));
        }
        let ghost at = self.trace_log@.len() as int;
        self.trace_log.push(slots);
        if self.ip < self.chunk.code.len() {
            let op = self.chunk.code[self.ip];
            let line = disassemble_instruction(&self.chunk, &op, self.ip, host);
            self.trace_log.push(line);
        }
        proof {
            assert(self.trace_log@[at] == slots);
            assert(traces_stack(host, old(self).stack.deep_view(), shown, self.trace_log@[at]@));
        }
    }

    /// Runs the next instruction. `None` says that the machine goes on.
    pub fn step<H: Host>(&mut self, host: &H) -> (r: Option<InterpretResult>)
        requires
            old(self).wf(),
            old(self).ip < old(self).chunk.code@.len(),
        ensures
            final(self).wf(),
            final(self).chunk == old(self).chunk,
            final(self).ip == old(self).ip + 1,
            final(self).follows_step(old(self), host, r),
    {
        let instruction: OpCode = self.chunk.code[self.ip];
        let line = self.chunk.lines[self.ip];
        assert(self.ip < self.chunk.code.len());
        self.ip += 1;
        let ghost stack = self.stack.deep_view();
        let n = self.stack.len();
        let needed: usize = match instruction {
            OpCode::OpConstant(_) | OpCode::OpNil | OpCode::OpTrue | OpCode::OpFalse => 0,
            OpCode::OpNot | OpCode::OpNegate | OpCode::OpReturn => 1,
            _ => 2,
        };
        if n < needed {
            return self.runtime_error("Stack underflow.", line);
        }
        match instruction {
            OpCode::OpConstant(index) => {
                if index >= self.chunk.constants.len() {
                    return self.runtime_error("Unknown constant.", line);
                }
                if n >= STACK_MAX {
                    return self.runtime_error("Stack overflow.", line);
                }
                let constant = self.read_constant(index);
                self.push(constant);
            },
            OpCode::OpNil => {
                if n >= STACK_MAX {
                    return self.runtime_error("Stack overflow.", line);
                }
                self.push(Value::new_nil());
            },
            OpCode::OpTrue => {
                if n >= STACK_MAX {
                    return self.runtime_error("Stack overflow.", line);
                }
                self.push(Value::new_bool(true));
            },
            OpCode::OpFalse => {
                if n >= STACK_MAX {
                    return self.runtime_error("Stack overflow.", line);
                }
                self.push(Value::new_bool(false));
            },
            OpCode::OpEqual => {
                let b = self.pop();
                let a = self.pop();
                let equal = a.eq(&b, host);
                self.push(Value::new_bool(equal));
            },
            OpCode::OpGreater | OpCode::OpLess => {
                if !self.peek(0).is_number() || !self.peek(1).is_number() {
                    return self.runtime_error("Operands must be numbers.", line);
                }
                let b = self.pop().as_number();
                let a = self.pop().as_number();
                let order = host.compare(a, b);
                let holds = match instruction {
                    OpCode::OpGreater => order == NumberOrder::Greater,
                    _ => order == NumberOrder::Less,
                };
                assert(call_ensures(H::compare, (host, a, b), order));
                self.push(Value::new_bool(holds));
            },
            OpCode::OpAdd => {
                if self.peek(0).is_number() && self.peek(1).is_number() {
                    let b = self.pop().as_number();
                    let a = self.pop().as_number();
                    self.push(Value::new_number(host.arith(ArithOp::Add, a, b)));
                } else if self.peek(0).is_string() && self.peek(1).is_string() {
                    let b = self.pop();
                    let a = self.pop();
                    let mut joined = a.text;
                    joined.append(b.text.as_str());
                    self.push(Value::new_string(joined));
                } else {
                    return self.runtime_error("Operands must be two numbers or two strings.", line);
                }
            },
            OpCode::OpSubtract | OpCode::OpMultiply | OpCode::OpDivide => {
                if !self.peek(0).is_number() || !self.peek(1).is_number() {
                    return self.runtime_error("Operands must be numbers.", line);
                }
                let b = self.pop().as_number();
                let a = self.pop().as_number();
                let op = match instruction {
                    OpCode::OpSubtract => ArithOp::Subtract,
                    OpCode::OpMultiply => ArithOp::Multiply,
                    _ => ArithOp::Divide,
                };
                self.push(Value::new_number(host.arith(op, a, b)));
            },
            OpCode::OpNot => {
                let value = self.pop();
                self.push(Value::new_bool(value.is_falsey()));
            },
            OpCode::OpNegate => {
                if !self.peek(0).is_number() {
                    return self.runtime_error("Operand must be a number.", line);
                }
                let value = self.pop();
                self.push(Value::new_number(value.as_number() ^ SIGN_BIT));
            },
            OpCode::OpReturn => {
                let value = self.pop();
                let text = print_value(&value, host);
                self.output.push(text);
                return Some(InterpretResult::Success);
            },
        }
        None
    }

    /// Reports `message` and the line of the instruction that failed, and
    /// empties the stack.
    fn runtime_error(&mut self, message: &str, line: usize) -> (r: Option<InterpretResult>)
        ensures
            r == Some(InterpretResult::RuntimeError),
            final(self).chunk == old(self).chunk,
            final(self).ip == old(self).ip,
            final(self).trace == old(self).trace,
            final(self).faulted(old(self), message@, line as nat),
    {
        self.diagnostics.push(String::from_str(message));
        let mut trailer = String::from_str("[line ");
        trailer.append(pad_left(decimal_string(line).as_str(), 4, " ").as_str());
        trailer.append("] in script");
        self.diagnostics.push(trailer);
        self.reset_stack();
        Some(InterpretResult::RuntimeError)
    }

    fn push(&mut self, value: Value)
        ensures
            final(self).chunk == old(self).chunk,
            final(self).ip == old(self).ip,
            final(self).output == old(self).output,
            final(self).diagnostics == old(self).diagnostics,
            final(self).trace == old(self).trace,
            final(self).stack@ == old(self).stack@.push(value),
            final(self).stack.deep_view() == old(self).stack.deep_view().push(value@),
    {
        self.stack.push(value);
        assert(self.stack.deep_view() =~= old(self).stack.deep_view().push(value@));
    }

    fn pop(&mut self) -> (r: Value)
        requires
            old(self).stack@.len() > 0,
        ensures
            final(self).chunk == old(self).chunk,
            final(self).ip == old(self).ip,
            final(self).output == old(self).output,
            final(self).diagnostics == old(self).diagnostics,
            final(self).trace == old(self).trace,
            final(self).stack@ == old(self).stack@.drop_last(),
            final(self).stack.deep_view() == old(self).stack.deep_view().drop_last(),
            r == old(self).stack@.last(),
            r@ == old(self).stack.deep_view().last(),
    {
        let r = self.stack.pop().unwrap();
        assert(self.stack.deep_view() =~= old(self).stack.deep_view().drop_last());
        r
    }

    fn reset_stack(&mut self)
        ensures
            final(self).chunk == old(self).chunk,
            final(self).ip == old(self).ip,
            final(self).output == old(self).output,
            final(self).diagnostics == old(self).diagnostics,
            final(self).trace == old(self).trace,
            final(self).stack@.len() == 0,
    {
        // Set top of stack to the beginning.
        self.stack.clear();
    }

    /// The value `distance` places below the top of the stack.
    fn peek(&self, distance: usize) -> (r: &Value)
        requires
            distance < self.stack@.len(),
        ensures
            *r == self.stack@[self.stack@.len() - distance - 1],
            r@ == self.stack.deep_view()[self.stack@.len() - distance - 1],
    {
        &self.stack[self.stack.len() - distance - 1]
    }

    fn read_constant(&self, index: usize) -> (r: Value)
        requires
            index < self.chunk.constants@.len(),
        ensures
            r == self.chunk.constants@[index as int],
            r@ == self.chunk.constants.deep_view()[index as int],
    {
        self.chunk.constants[index].clone()
    }
}

} // verus!
