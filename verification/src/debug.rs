//! The disassembler.
use vstd::prelude::*;
use vstd::string::*;
use crate::chunk::{Chunk, OpCode};
use crate::host::Host;
use crate::text::{decimal, decimal_string, pad_left, pad_right, padded_left, padded_right};
use crate::value::{print_value, shows_as};

verus! {

/// The name of an instruction.
pub open spec fn opcode_name(op: OpCode) -> Seq<char> {
    match op {
        OpCode::OpConstant(_) => "OP_CONSTANT"@,
        OpCode::OpNil => "OP_NIL"@,
        OpCode::OpTrue => "OP_TRUE"@,
        OpCode::OpFalse => "OP_FALSE"@,
        OpCode::OpEqual => "OP_EQUAL"@,
        OpCode::OpGreater => "OP_GREATER"@,
        OpCode::OpLess => "OP_LESS"@,
        OpCode::OpAdd => "OP_ADD"@,
        OpCode::OpSubtract => "OP_SUBTRACT"@,
        OpCode::OpMultiply => "OP_MULTIPLY"@,
        OpCode::OpDivide => "OP_DIVIDE"@,
        OpCode::OpNot => "OP_NOT"@,
        OpCode::OpNegate => "OP_NEGATE"@,
        OpCode::OpReturn => "OP_RETURN"@,
    }
}

/// How the line of instruction `i` is shown: the number, or a bar where the
/// instruction before it is of the same line, or a question mark where the
/// chunk has no line for it.
pub open spec fn line_column(lines: Seq<usize>, i: int) -> Seq<char> {
    if !(0 <= i < lines.len()) {
        "   ? "@
    } else if i > 0 && lines[i] == lines[i - 1] {
        "   | "@
    } else {
        padded_left(decimal(lines[i] as nat), 4, " "@) + " "@
    }
}

/// The start of a disassembled instruction: its offset in four digits and
/// its line.
pub open spec fn instruction_head(lines: Seq<usize>, i: nat) -> Seq<char> {
    padded_left(decimal(i), 4, "0"@) + " "@ + line_column(lines, i as int)
}

/// `value` shows the constant numbered `k`; a question mark shows a constant
/// that is not in the table.
pub open spec fn shows_constant<H: Host>(host: &H, chunk: Chunk, k: usize, value: String) -> bool {
    if k < chunk.constants@.len() {
        shows_as(host, chunk.constants@[k as int]@, value)
    } else {
        value@ == "?"@
    }
}

/// What follows the head for `OpConstant` with index `k` and the value
/// shown as `value`.
pub open spec fn constant_text(k: usize, value: Seq<char>) -> Seq<char> {
    padded_right("OP_CONSTANT"@, 16) + " "@ + padded_left(decimal(k as nat), 4, " "@) + " '"@
        + value + "'"@
}

/// The disassembly of one instruction: the head, the name, and for a
/// constant its index and, in quotes, its value.
pub open spec fn disassembled<H: Host>(
    host: &H,
    chunk: Chunk,
    op: OpCode,
    i: nat,
    text: Seq<char>,
) -> bool {
    match op {
        OpCode::OpConstant(k) => exists|value: String| #[trigger]
            shows_constant(host, chunk, k, value) && text == instruction_head(chunk.lines@, i)
                + constant_text(k, value@),
        _ => text == instruction_head(chunk.lines@, i) + opcode_name(op),
    }
}

/// The disassembly of a chunk: a heading with `name`, then the instructions
/// in order.
pub fn disassemble_chunk<H: Host>(chunk: &Chunk, name: &str, host: &H) -> (r: Vec<String>)
    ensures
        r@.len() == chunk.code@.len() + 1,
        r@[0]@ == "== "@ + name@ + " =="@,
        forall|i: int|
            0 <= i < chunk.code@.len() ==> disassembled(
                host,
                *chunk,
                chunk.code@[i],
                i as nat,
                (#[trigger] r@[i + 1])@,
            ),
{
    let mut lines: Vec<String> = Vec::new();
    lines.push(crate::text::concat3("== ", name, " =="));
    let mut i: usize = 0;
    while i < chunk.code.len()
        invariant
            i <= chunk.code@.len(),
            lines@.len() == i + 1,
            lines@[0]@ == "== "@ + name@ + " =="@,
            forall|j: int|
                0 <= j < i ==> disassembled(
                    host,
                    *chunk,
                    chunk.code@[j],
                    j as nat,
                    (#[trigger] lines@[j + 1])@,
                ),
        decreases chunk.code@.len() - i,
    {
        let op = chunk.code[i];
        lines.push(disassemble_instruction(chunk, &op, i, host));
        i += 1;
    }
    lines
}

fn constant_instruction<H: Host>(name: &str, chunk: &Chunk, constant_index: usize, host: &H) -> (r:
    (String, Ghost<String>))
    requires
        name@ == "OP_CONSTANT"@,
    ensures
        shows_constant(host, *chunk, constant_index, r.1@),
        r.0@ == constant_text(constant_index, r.1@@),
{
    let mut r = pad_right(name, 16);
    r.append(" ");
    r.append(pad_left(decimal_string(constant_index).as_str(), 4, " ").as_str());
    r.append(" '");
    let value = if constant_index < chunk.constants.len() {
        print_value(&chunk.constants[constant_index], host)
    } else {
        String::from_str("?")
    };
    r.append(value.as_str());
    r.append("'");
    (r, Ghost(value))
}

fn simple_instruction(name: &str) -> (r: String)
    ensures
        r@ == name@,
{
    String::from_str(name)
}

fn opcode_label(op: &OpCode) -> (r: &'static str)
    ensures
        r@ == opcode_name(*op),
{
    match op {
        OpCode::OpConstant(_) => "OP_CONSTANT",
        OpCode::OpNil => "OP_NIL",
        OpCode::OpTrue => "OP_TRUE",
        OpCode::OpFalse => "OP_FALSE",
        OpCode::OpEqual => "OP_EQUAL",
        OpCode::OpGreater => "OP_GREATER",
        OpCode::OpLess => "OP_LESS",
        OpCode::OpAdd => "OP_ADD",
        OpCode::OpSubtract => "OP_SUBTRACT",
        OpCode::OpMultiply => "OP_MULTIPLY",
        OpCode::OpDivide => "OP_DIVIDE",
        OpCode::OpNot => "OP_NOT",
        OpCode::OpNegate => "OP_NEGATE",
        OpCode::OpReturn => "OP_RETURN",
    }
}

/// The disassembly of instruction `i` of `chunk`.
pub fn disassemble_instruction<H: Host>(chunk: &Chunk, op_code: &OpCode, i: usize, host: &H) -> (r:
    String)
    ensures
        disassembled(host, *chunk, *op_code, i as nat, r@),
{
    let mut r = pad_left(decimal_string(i).as_str(), 4, "0");
    r.append(" ");
    if i >= chunk.lines.len() {
        r.append("   ? ");
    } else if i > 0 && chunk.lines[i] == chunk.lines[i - 1] {
        r.append("   | ");
    } else {
        r.append(pad_left(decimal_string(chunk.lines[i]).as_str(), 4, " ").as_str());
        r.append(" ");
    }
    assert(r@ =~= instruction_head(chunk.lines@, i as nat));
    match op_code {
        OpCode::OpConstant(constant_index) => {
            let (rest, Ghost(value)) = constant_instruction(
                "OP_CONSTANT",
                chunk,
                *constant_index,
                host,
            );
            r.append(rest.as_str());
            assert(shows_constant(host, *chunk, *constant_index, value) && r@ == instruction_head(
                chunk.lines@,
                i as nat,
            ) + constant_text(*constant_index, value@));
        },
        other => {
            r.append(simple_instruction(opcode_label(other)).as_str());
        },
    }
    r
}

} // verus!
