//! The shared instruction format: opcode words, their operand arity, and
//! their mnemonics.
//!
//! Opcode and operand words share one representational domain (`usize`); a
//! decoder must walk instruction boundaries with the arity table, it cannot
//! classify an arbitrary offset.

use vstd::prelude::*;

use crate::text::push_str;

verus! {

pub const OP_HALT: usize = 0;

pub const OP_CONST: usize = 1;

pub const OP_ADD: usize = 2;

pub const OP_SUB: usize = 3;

pub const OP_MUL: usize = 4;

pub const OP_DIV: usize = 5;

pub const OP_EQ: usize = 6;

pub const OP_JUMP: usize = 7;

pub const OP_JUMP_IF_FALSE: usize = 8;

pub const OP_LOAD_CONTEXT: usize = 9;

pub const OP_SET_CONTEXT: usize = 10;

/// Does this opcode carry one trailing operand word? (All others carry none.)
pub open spec fn has_operand(op: usize) -> bool {
    op == OP_CONST || op == OP_JUMP || op == OP_JUMP_IF_FALSE || op == OP_LOAD_CONTEXT
        || op == OP_SET_CONTEXT
}

/// Is this one of the two jump opcodes, whose operand is an absolute code
/// index filled in by backpatching?
pub open spec fn is_jump(op: usize) -> bool {
    op == OP_JUMP || op == OP_JUMP_IF_FALSE
}

/// The mnemonic of an opcode word; any word outside the instruction set
/// renders as `UNKNOWN`.
pub open spec fn mnemonic(op: usize) -> Seq<char> {
    if op == OP_HALT {
        "HALT"@
    } else if op == OP_CONST {
        "CONST"@
    } else if op == OP_ADD {
        "ADD"@
    } else if op == OP_SUB {
        "SUB"@
    } else if op == OP_MUL {
        "MUL"@
    } else if op == OP_DIV {
        "DIV"@
    } else if op == OP_EQ {
        "EQ"@
    } else if op == OP_JUMP {
        "JUMP"@
    } else if op == OP_JUMP_IF_FALSE {
        "JUMP_IF_FALSE"@
    } else if op == OP_LOAD_CONTEXT {
        "LOAD_CONTEXT"@
    } else if op == OP_SET_CONTEXT {
        "SET_CONTEXT"@
    } else {
        "UNKNOWN"@
    }
}

/// The mnemonic of an opcode word, as text.
pub fn opcode_to_string(op: usize) -> (r: String)
    ensures
        r@ == mnemonic(op),
{
    let mut s = String::new();
    if op == OP_HALT {
        push_str(&mut s, "HALT");
    } else if op == OP_CONST {
        push_str(&mut s, "CONST");
    } else if op == OP_ADD {
        push_str(&mut s, "ADD");
    } else if op == OP_SUB {
        push_str(&mut s, "SUB");
    } else if op == OP_MUL {
        push_str(&mut s, "MUL");
    } else if op == OP_DIV {
        push_str(&mut s, "DIV");
    } else if op == OP_EQ {
        push_str(&mut s, "EQ");
    } else if op == OP_JUMP {
        push_str(&mut s, "JUMP");
    } else if op == OP_JUMP_IF_FALSE {
        push_str(&mut s, "JUMP_IF_FALSE");
    } else if op == OP_LOAD_CONTEXT {
        push_str(&mut s, "LOAD_CONTEXT");
    } else if op == OP_SET_CONTEXT {
        push_str(&mut s, "SET_CONTEXT");
    } else {
        push_str(&mut s, "UNKNOWN");
    }
    s
}

} // verus!
