use jsbytecode::bytecode::{
    OP_ADD, OP_CONST, OP_HALT, OP_JUMP, OP_JUMP_IF_FALSE, OP_LOAD_CONTEXT, OP_SET_CONTEXT,
};
use jsbytecode::context::Context;
use jsbytecode::disassembler::Disassembler;
use jsbytecode::values::Value;

fn number(x: f64) -> Value {
    Value::Number(x.to_bits())
}

#[test]
fn listing_for_add_program() {
    // the finished program for `1 + 2`
    let code = vec![OP_CONST, 0, OP_CONST, 1, OP_ADD, OP_HALT];
    let constants = vec![number(1.0), number(2.0)];
    let d = Disassembler::new(code, constants, Context::new());
    let text = d.disassemble();
    let expected = "Offset    Bytes     Opcode    Operand\n\
                    0000      01  00    CONST    (1)\n\
                    0002      01  01    CONST    (2)\n\
                    0004      02    ADD\n\
                    0005      00    HALT\n";
    assert_eq!(text, expected);
}

#[test]
fn listing_resolves_variable_names() {
    let mut ctx = Context::new();
    ctx.define_variable("x".to_string(), None);
    let code = vec![OP_SET_CONTEXT, 0, OP_LOAD_CONTEXT, 0];
    let d = Disassembler::new(code, vec![], ctx);
    let text = d.disassemble();
    let expected = "Offset    Bytes     Opcode    Operand\n\
                    0000      0a  00    SET_CONTEXT    (x)\n\
                    0002      09  00    LOAD_CONTEXT    (x)\n";
    assert_eq!(text, expected);
}

#[test]
fn disassembling_twice_is_byte_identical() {
    let code = vec![OP_CONST, 0, OP_JUMP_IF_FALSE, 8, OP_CONST, 1, OP_JUMP, 8, OP_HALT];
    let constants = vec![Value::Boolean(true), number(1.0)];
    let ctx = Context::new();
    let d1 = Disassembler::new(code.clone(), constants.clone(), ctx.clone());
    let d2 = Disassembler::new(code, constants, ctx);
    assert_eq!(d1.disassemble().into_bytes(), d2.disassemble().into_bytes());
}

#[test]
fn jump_opcodes_are_reported_as_unrecognized_single_words() {
    // the decoder has no case for JUMP / JUMP_IF_FALSE: each is decoded as
    // a bare one-word row, so its operand word is decoded as if it were an
    // instruction of its own — the documented desynchronization
    let code = vec![OP_JUMP_IF_FALSE, 6, OP_JUMP, 6];
    let d = Disassembler::new(code, vec![], Context::new());
    let text = d.disassemble();
    let expected = "Offset    Bytes     Opcode    Operand\n\
                    0000      08    JUMP_IF_FALSE\n\
                    0001      06    EQ\n\
                    0002      07    JUMP\n\
                    0003      06    EQ\n";
    assert_eq!(text, expected);
}

#[test]
fn unknown_word_is_a_nonfatal_diagnostic() {
    let code = vec![99, OP_HALT];
    let d = Disassembler::new(code, vec![], Context::new());
    let text = d.disassemble();
    let expected = "Offset    Bytes     Opcode    Operand\n\
                    0000      63    UNKNOWN\n\
                    0001      00    HALT\n";
    assert_eq!(text, expected);
}

#[test]
fn out_of_range_operands_render_as_question_marks() {
    let code = vec![OP_CONST, 5, OP_LOAD_CONTEXT, 9, OP_CONST];
    let d = Disassembler::new(code, vec![], Context::new());
    let text = d.disassemble();
    let expected = "Offset    Bytes     Opcode    Operand\n\
                    0000      01  05    CONST    (?)\n\
                    0002      09  09    LOAD_CONTEXT    (?)\n\
                    0004      01    CONST    (?)\n";
    assert_eq!(text, expected);
}

#[test]
fn constant_renderings() {
    let code = vec![OP_CONST, 0, OP_CONST, 1, OP_CONST, 2, OP_CONST, 3, OP_CONST, 4];
    let constants = vec![
        number(-7.0),
        Value::Boolean(false),
        Value::Str("hey".to_string()),
        number(f64::NAN),
        number(0.5),
    ];
    let d = Disassembler::new(code, constants, Context::new());
    let text = d.disassemble();
    let expected = "Offset    Bytes     Opcode    Operand\n\
                    0000      01  00    CONST    (-7)\n\
                    0002      01  01    CONST    (false)\n\
                    0004      01  02    CONST    (hey)\n\
                    0006      01  03    CONST    (NaN)\n\
                    0008      01  04    CONST    (0x3fe0000000000000)\n";
    assert_eq!(text, expected);
}

#[test]
fn value_rendering_rules() {
    assert_eq!(number(3.0).render(), "3");
    assert_eq!(number(-2.0).render(), "-2");
    assert_eq!(number(0.0).render(), "0");
    assert_eq!(number(-0.0).render(), "-0");
    assert_eq!(number(1048576.0).render(), "1048576");
    assert_eq!(number(f64::INFINITY).render(), "Infinity");
    assert_eq!(number(f64::NEG_INFINITY).render(), "-Infinity");
    assert_eq!(Value::Boolean(true).render(), "true");
    assert_eq!(Value::Str("abc".to_string()).render(), "abc");
}

#[test]
fn helper_columns() {
    let code = vec![OP_CONST, 255, OP_HALT];
    let d = Disassembler::new(code, vec![], Context::new());
    assert_eq!(d.dumb_bytecode(0, 2), "01  ff    ");
    assert_eq!(d.print_opcode(OP_CONST), "CONST");
    assert_eq!(d.print_opcode(1234), "UNKNOWN");
    assert_eq!(d.disassemble_hex(255), "ff");
    assert_eq!(d.disassemble_hex(0), "0");
}
