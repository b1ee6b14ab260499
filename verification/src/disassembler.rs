//! The disassembler: a single forward linear decode of a finished bytecode
//! program into a formatted listing, one row per instruction.
//!
//! The whole text is pinned down by `spec_disassemble`, so disassembly is a
//! pure function of `(code, constants, context)`. Unlike the compiler's
//! all-or-nothing policy, decoding never fails: a word the decoder does not
//! recognize — notably `JUMP` and `JUMP_IF_FALSE`, which the compiler emits
//! but this decoder has no case for, a documented gap kept for compatibility
//! — is rendered as a one-word diagnostic row and the pointer advances by a
//! single word, which can desynchronize later multi-word instructions. An
//! out-of-range constant or slot operand, or an operand word cut off by the
//! end of the buffer, renders as `?` instead of failing.

use vstd::prelude::*;

use crate::bytecode::{mnemonic, opcode_to_string, OP_CONST, OP_LOAD_CONTEXT, OP_SET_CONTEXT};
use crate::compiler::consts_view;
use crate::context::Context;
use crate::text::{dec_pad4, hex_digits, hex_pad2, push_dec4, push_hex, push_hex2, push_str};
use crate::values::{render_const, ConstV, Value};

verus! {

/// The raw-bytes column for `count` words starting at `offset`: each word in
/// two-place hex with two trailing spaces, then two more spaces.
pub open spec fn spec_dumb_bytecode(code: Seq<usize>, offset: int, count: int) -> Seq<char>
    decreases count,
{
    if count <= 0 {
        "  "@
    } else {
        hex_pad2(code[offset] as nat) + "  "@ + spec_dumb_bytecode(code, offset + 1, count - 1)
    }
}

/// The operand column for a slot index: the variable's name from the scope
/// table, or `?` for a slot that was never allocated.
pub open spec fn spec_operand_var(vars: Seq<Seq<char>>, idx: int) -> Seq<char> {
    "    ("@ + (if 0 <= idx < vars.len() {
        vars[idx]
    } else {
        "?"@
    }) + ")"@
}

/// The operand column for a constant index: the constant's rendering, or `?`
/// for an index outside the pool.
pub open spec fn spec_operand_const(consts: Seq<ConstV>, idx: int) -> Seq<char> {
    "    ("@ + (if 0 <= idx < consts.len() {
        render_const(consts[idx])
    } else {
        "?"@
    }) + ")"@
}

/// One decoded row (without its newline) and the next instruction pointer.
pub open spec fn spec_instruction(
    code: Seq<usize>,
    consts: Seq<ConstV>,
    vars: Seq<Seq<char>>,
    ip: int,
) -> (Seq<char>, int) {
    let prefix = dec_pad4(ip as nat) + "      "@;
    let op = code[ip];
    if op == OP_CONST {
        if ip + 1 < code.len() {
            (
                prefix + spec_dumb_bytecode(code, ip, 2) + mnemonic(op) + spec_operand_const(
                    consts,
                    code[ip + 1] as int,
                ),
                ip + 2,
            )
        } else {
            (prefix + spec_dumb_bytecode(code, ip, 1) + mnemonic(op) + "    (?)"@, ip + 1)
        }
    } else if op == OP_LOAD_CONTEXT || op == OP_SET_CONTEXT {
        if ip + 1 < code.len() {
            (
                prefix + spec_dumb_bytecode(code, ip, 2) + mnemonic(op) + spec_operand_var(
                    vars,
                    code[ip + 1] as int,
                ),
                ip + 2,
            )
        } else {
            (prefix + spec_dumb_bytecode(code, ip, 1) + mnemonic(op) + "    (?)"@, ip + 1)
        }
    } else {
        // simple opcodes, and every word the decoder does not recognize
        // (JUMP and JUMP_IF_FALSE among them): one word, mnemonic only
        (prefix + spec_dumb_bytecode(code, ip, 1) + mnemonic(op), ip + 1)
    }
}

/// All rows from `ip` to the end of the buffer, each ending in a newline.
pub open spec fn spec_rows(
    code: Seq<usize>,
    consts: Seq<ConstV>,
    vars: Seq<Seq<char>>,
    ip: int,
) -> Seq<char>
    decreases code.len() - ip,
{
    if ip < 0 || ip >= code.len() {
        Seq::<char>::empty()
    } else {
        spec_instruction(code, consts, vars, ip).0 + "\n"@ + spec_rows(
            code,
            consts,
            vars,
            spec_instruction(code, consts, vars, ip).1,
        )
    }
}

/// The whole listing: a header line, then one row per decoded instruction.
pub open spec fn spec_disassemble(
    code: Seq<usize>,
    consts: Seq<ConstV>,
    vars: Seq<Seq<char>>,
) -> Seq<char> {
    "Offset    Bytes     Opcode    Operand\n"@ + spec_rows(code, consts, vars, 0)
}

/// A disassembler for one finished program: its code, its constant pool, and
/// the scope table used to resolve slot names.
pub struct Disassembler {
    code: Vec<usize>,
    constants: Vec<Value>,
    ctx: Context,
}

impl Disassembler {
    /// The code being decoded.
    pub closed spec fn codev(self) -> Seq<usize> {
        self.code@
    }

    /// The constant pool, as mathematics.
    pub closed spec fn constsv(self) -> Seq<ConstV> {
        consts_view(self.constants@)
    }

    /// The scope table's bound names.
    pub closed spec fn varsv(self) -> Seq<Seq<char>> {
        self.ctx@.vars
    }

    /// A disassembler over a finished `(code, constants, context)` triple.
    pub fn new(code: Vec<usize>, constants: Vec<Value>, ctx: Context) -> (r: Disassembler)
        ensures
            r.codev() == code@,
            r.constsv() == consts_view(constants@),
            r.varsv() == ctx@.vars,
    {
        Disassembler { code, constants, ctx }
    }

    /// The full listing. Exactly `spec_disassemble`: the same triple always
    /// yields the same text.
    pub fn disassemble(&self) -> (r: String)
        ensures
            r@ == spec_disassemble(self.codev(), self.constsv(), self.varsv()),
    {
        let mut s = String::new();
        push_str(&mut s, "Offset    Bytes     Opcode    Operand\n");
        proof {
            assert(s@ + spec_rows(self.codev(), self.constsv(), self.varsv(), 0)
                =~= spec_disassemble(self.codev(), self.constsv(), self.varsv()));
        }
        let mut ip: usize = 0;
        while ip < self.code.len()
            invariant
                ip <= self.codev().len(),
                s@ + spec_rows(self.codev(), self.constsv(), self.varsv(), ip as int)
                    == spec_disassemble(self.codev(), self.constsv(), self.varsv()),
            decreases self.codev().len() - ip,
        {
            let (row, next) = self.disassemble_instruction(ip);
            push_str(&mut s, row.as_str());
            push_str(&mut s, "\n");
            proof {
                assert(s@ + spec_rows(self.codev(), self.constsv(), self.varsv(), next as int)
                    =~= spec_disassemble(self.codev(), self.constsv(), self.varsv()));
            }
            ip = next;
        }
        proof {
            assert(s@ =~= spec_disassemble(self.codev(), self.constsv(), self.varsv()));
        }
        s
    }

    /// Decodes the one instruction at `ip`: its row text (without newline)
    /// and the next instruction pointer. Exactly `spec_instruction`.
    fn disassemble_instruction(&self, ip: usize) -> (r: (String, usize))
        requires
            ip < self.codev().len(),
        ensures
            r.0@ == spec_instruction(self.codev(), self.constsv(), self.varsv(), ip as int).0,
            r.1 as int == spec_instruction(self.codev(), self.constsv(), self.varsv(), ip as int).1,
            ip < r.1 <= self.codev().len(),
    {
        let ghost expect = spec_instruction(self.codev(), self.constsv(), self.varsv(), ip as int);
        let n = self.code.len();
        let mut s = String::new();
        push_dec4(&mut s, ip as u64);
        push_str(&mut s, "      ");
        let opcode = self.code[ip];
        if opcode == OP_CONST {
            if ip + 1 < n {
                let (frag, next) = self.disassemble_const(ip, opcode);
                push_str(&mut s, frag.as_str());
                proof {
                    assert(s@ =~= expect.0);
                }
                (s, next)
            } else {
                let frag = self.dumb_bytecode(ip, 1);
                push_str(&mut s, frag.as_str());
                let name = self.print_opcode(opcode);
                push_str(&mut s, name.as_str());
                push_str(&mut s, "    (?)");
                proof {
                    assert(s@ =~= expect.0);
                }
                (s, ip + 1)
            }
        } else if opcode == OP_LOAD_CONTEXT || opcode == OP_SET_CONTEXT {
            if ip + 1 < n {
                let (frag, next) = self.disassemble_load_set(ip, opcode);
                push_str(&mut s, frag.as_str());
                proof {
                    assert(s@ =~= expect.0);
                }
                (s, next)
            } else {
                let frag = self.dumb_bytecode(ip, 1);
                push_str(&mut s, frag.as_str());
                let name = self.print_opcode(opcode);
                push_str(&mut s, name.as_str());
                push_str(&mut s, "    (?)");
                proof {
                    assert(s@ =~= expect.0);
                }
                (s, ip + 1)
            }
        } else {
            let (frag, next) = self.disassemble_simple(opcode, ip);
            push_str(&mut s, frag.as_str());
            proof {
                assert(s@ =~= expect.0);
            }
            (s, next)
        }
    }

    /// The row fragment for `LOAD_CONTEXT`/`SET_CONTEXT`: raw bytes,
    /// mnemonic, and the slot's variable name resolved through the scope
    /// table.
    pub fn disassemble_load_set(&self, offset: usize, opcode: usize) -> (r: (String, usize))
        requires
            offset + 1 < self.codev().len(),
            self.codev()[offset as int] == opcode,
            opcode == OP_LOAD_CONTEXT || opcode == OP_SET_CONTEXT,
        ensures
            r.0@ == spec_dumb_bytecode(self.codev(), offset as int, 2) + mnemonic(opcode)
                + spec_operand_var(self.varsv(), self.codev()[offset + 1] as int),
            r.1 == offset + 2,
    {
        let n = self.code.len();
        let mut s = self.dumb_bytecode(offset, 2);
        let name = self.print_opcode(opcode);
        push_str(&mut s, name.as_str());
        push_str(&mut s, "    (");
        let index = self.code[offset + 1];
        match self.ctx.get_variable_name(index) {
            Some(var_name) => {
                push_str(&mut s, var_name.as_str());
            },
            None => {
                push_str(&mut s, "?");
            },
        }
        push_str(&mut s, ")");
        proof {
            assert(s@ =~= spec_dumb_bytecode(self.codev(), offset as int, 2) + mnemonic(opcode)
                + spec_operand_var(self.varsv(), self.codev()[offset + 1] as int));
        }
        (s, offset + 2)
    }

    /// The row fragment for `CONST`: raw bytes, mnemonic, and the constant's
    /// rendering resolved through the pool.
    pub fn disassemble_const(&self, offset: usize, opcode: usize) -> (r: (String, usize))
        requires
            offset + 1 < self.codev().len(),
            self.codev()[offset as int] == opcode,
            opcode == OP_CONST,
        ensures
            r.0@ == spec_dumb_bytecode(self.codev(), offset as int, 2) + mnemonic(opcode)
                + spec_operand_const(self.constsv(), self.codev()[offset + 1] as int),
            r.1 == offset + 2,
    {
        let n = self.code.len();
        let mut s = self.dumb_bytecode(offset, 2);
        let name = self.print_opcode(opcode);
        push_str(&mut s, name.as_str());
        push_str(&mut s, "    (");
        let index = self.code[offset + 1];
        if index < self.constants.len() {
            let rendering = self.constants[index].render();
            push_str(&mut s, rendering.as_str());
            proof {
                assert(self.constsv()[index as int] == self.constants@[index as int]@);
            }
        } else {
            push_str(&mut s, "?");
        }
        push_str(&mut s, ")");
        proof {
            assert(s@ =~= spec_dumb_bytecode(self.codev(), offset as int, 2) + mnemonic(opcode)
                + spec_operand_const(self.constsv(), self.codev()[offset + 1] as int));
        }
        (s, offset + 2)
    }

    /// The row fragment for a one-word instruction (or an unrecognized
    /// word): raw bytes and mnemonic only.
    pub fn disassemble_simple(&self, opcode: usize, offset: usize) -> (r: (String, usize))
        requires
            offset < self.codev().len(),
            self.codev()[offset as int] == opcode,
            opcode != OP_CONST && opcode != OP_LOAD_CONTEXT && opcode != OP_SET_CONTEXT,
        ensures
            r.0@ == spec_dumb_bytecode(self.codev(), offset as int, 1) + mnemonic(opcode),
            r.1 == offset + 1,
    {
        let n = self.code.len();
        let mut s = self.dumb_bytecode(offset, 1);
        let name = self.print_opcode(opcode);
        push_str(&mut s, name.as_str());
        (s, offset + 1)
    }

    /// The raw-bytes column for `count` words starting at `offset`. Exactly
    /// `spec_dumb_bytecode`.
    pub fn dumb_bytecode(&self, offset: usize, count: usize) -> (r: String)
        requires
            offset + count <= self.codev().len(),
        ensures
            r@ == spec_dumb_bytecode(self.codev(), offset as int, count as int),
        decreases count,
    {
        let n = self.code.len();
        let mut s = String::new();
        if count == 0 {
            push_str(&mut s, "  ");
        } else {
            let w = self.code[offset];
            push_hex2(&mut s, w as u64);
            push_str(&mut s, "  ");
            let rest = self.dumb_bytecode(offset + 1, count - 1);
            push_str(&mut s, rest.as_str());
            proof {
                assert(s@ =~= spec_dumb_bytecode(self.codev(), offset as int, count as int));
            }
        }
        s
    }

    /// The mnemonic column for an opcode word.
    pub fn print_opcode(&self, opcode: usize) -> (r: String)
        ensures
            r@ == mnemonic(opcode),
    {
        opcode_to_string(opcode)
    }

    /// A bare hexadecimal rendering of an index, without padding.
    pub fn disassemble_hex(&self, index: usize) -> (r: String)
        ensures
            r@ == hex_digits(index as nat),
    {
        let mut s = String::new();
        push_hex(&mut s, index as u64);
        proof {
            assert(s@ =~= hex_digits(index as nat));
        }
        s
    }
}

} // verus!
