//! The compiler: walks the AST and emits bytecode into a fresh program,
//! deduplicating number and string constants and backpatching forward jumps.
//!
//! Every emitting method is proved equal to a spec-level compiler
//! (`spec_generate` and the `spec_*` functions below), so the exact words of
//! the emitted code, the exact constant pool and the exact slot table are
//! pinned down by the contracts. Compilation is all-or-nothing: the first
//! unsupported construct aborts with an error kind and no program is
//! returned. Every compiling method is also transactional — a call that
//! fails leaves the code, the constant pool and the scope table exactly as
//! it found them — so a host such as a REPL can recover per statement.

use vstd::prelude::*;

use crate::ast::{
    BinaryOperator, BindingPattern, Declaration, Declarator, Expression, Program, PropertyKey,
    Statement, VariableDeclarationKind,
};
use crate::bytecode::{
    OP_ADD, OP_CONST, OP_DIV, OP_EQ, OP_HALT, OP_JUMP, OP_JUMP_IF_FALSE, OP_LOAD_CONTEXT,
    OP_MUL, OP_SET_CONTEXT, OP_SUB,
};
use crate::context::{var_lookup, Context};
use crate::values::{num_eq, number_equal, ConstV, Value};

verus! {

/// Why a compilation aborted. Every error is fatal for the whole unit.
#[derive(Clone, Copy, PartialEq, Eq, Debug)]
pub enum CompileError {
    /// A statement kind outside the supported subset.
    UnsupportedStatement,
    /// A declaration other than a `let` variable declaration.
    UnsupportedDeclaration,
    /// An expression kind outside the supported subset.
    UnsupportedExpression,
    /// A binary operator other than `+ - * / ===`.
    UnsupportedOperator,
    /// A default-value sub-pattern in a binding position.
    UnsupportedBindingPattern,
    /// An object-pattern key that is not a plain identifier.
    UnsupportedPropertyKey,
    /// An identifier that names a known global, which this compiler cannot
    /// lower yet.
    UnsupportedConstruct,
    /// An identifier that is neither bound nor a known global.
    UnboundIdentifier,
}

/// The compiler's whole state as mathematics: the code emitted so far, the
/// constant pool so far, and the scope table's bound names.
#[verifier::ext_equal]
pub ghost struct CState {
    pub code: Seq<usize>,
    pub consts: Seq<ConstV>,
    pub vars: Seq<Seq<char>>,
}

/// The views of a sequence of constant-pool entries.
pub open spec fn consts_view(cs: Seq<Value>) -> Seq<ConstV> {
    cs.map_values(|v: Value| v@)
}

/// Appends one word to the code.
pub open spec fn emit1(st: CState, w: usize) -> CState {
    CState { code: st.code.push(w), ..st }
}

/// Appends an opcode word and its operand word.
pub open spec fn emit2(st: CState, op: usize, operand: usize) -> CState {
    CState { code: st.code.push(op).push(operand), ..st }
}

/// Overwrites the word at `pos` — the backpatch step.
pub open spec fn patch(st: CState, pos: int, w: usize) -> CState {
    CState { code: st.code.update(pos, w), ..st }
}

/// Does this pool entry match a number lookup: a `Number` entry whose value
/// is numerically equal (IEEE: a NaN matches nothing, the two zeros match
/// each other)? `Boolean` and `Str` entries never match.
pub open spec fn num_match(c: ConstV, bits: u64) -> bool {
    c matches ConstV::Number(b) && num_eq(b, bits)
}

/// The first pool index whose entry is a numerically equal `Number`, if any.
pub open spec fn num_index(cs: Seq<ConstV>, bits: u64) -> Option<int>
    decreases cs.len(),
{
    if cs.len() == 0 {
        None
    } else if num_match(cs[0], bits) {
        Some(0int)
    } else {
        match num_index(cs.drop_first(), bits) {
            Some(i) => Some(i + 1),
            None => None,
        }
    }
}

/// The first pool index holding exactly `Str(text)`, if any; only `Str`
/// entries are compared.
pub open spec fn str_index(cs: Seq<ConstV>, text: Seq<char>) -> Option<int>
    decreases cs.len(),
{
    if cs.len() == 0 {
        None
    } else if cs[0] == ConstV::Str(text) {
        Some(0int)
    } else {
        match str_index(cs.drop_first(), text) {
            Some(i) => Some(i + 1),
            None => None,
        }
    }
}

/// `num_index` finds the first matching entry, and finds none exactly when
/// no entry matches.
pub proof fn lemma_num_index(cs: Seq<ConstV>, bits: u64)
    ensures
        match num_index(cs, bits) {
            Some(i) => 0 <= i < cs.len() && num_match(cs[i], bits) && (forall|j: int|
                0 <= j < i ==> !num_match(cs[j], bits)),
            None => forall|j: int| 0 <= j < cs.len() ==> !num_match(cs[j], bits),
        },
    decreases cs.len(),
{
    if cs.len() > 0 && !num_match(cs[0], bits) {
        lemma_num_index(cs.drop_first(), bits);
        assert forall|j: int| 1 <= j < cs.len() implies cs[j] == cs.drop_first()[j - 1] by {
            assert(cs.drop_first() == cs.subrange(1, cs.len() as int));
        }
    }
}

/// `str_index` finds the first matching entry, and finds none exactly when
/// no entry matches.
pub proof fn lemma_str_index(cs: Seq<ConstV>, text: Seq<char>)
    ensures
        match str_index(cs, text) {
            Some(i) => 0 <= i < cs.len() && cs[i] == ConstV::Str(text) && (forall|j: int|
                0 <= j < i ==> cs[j] != ConstV::Str(text)),
            None => forall|j: int| 0 <= j < cs.len() ==> cs[j] != ConstV::Str(text),
        },
    decreases cs.len(),
{
    if cs.len() > 0 && cs[0] != ConstV::Str(text) {
        lemma_str_index(cs.drop_first(), text);
        assert forall|j: int| 1 <= j < cs.len() implies cs[j] == cs.drop_first()[j - 1] by {
            assert(cs.drop_first() == cs.subrange(1, cs.len() as int));
        }
    }
}

/// Interns a number: the pool after the lookup and the operand index. The
/// first numerically equal `Number` entry is reused; otherwise a fresh entry
/// is appended (so a NaN always appends: it equals nothing).
pub open spec fn intern_num(st: CState, bits: u64) -> (CState, int) {
    match num_index(st.consts, bits) {
        Some(i) => (st, i),
        None => (
            CState { consts: st.consts.push(ConstV::Number(bits)), ..st },
            st.consts.len() as int,
        ),
    }
}

/// Interns a string, like `intern_num` but over `Str` entries.
pub open spec fn intern_str(st: CState, text: Seq<char>) -> (CState, int) {
    match str_index(st.consts, text) {
        Some(i) => (st, i),
        None => (
            CState { consts: st.consts.push(ConstV::Str(text)), ..st },
            st.consts.len() as int,
        ),
    }
}

/// Compiles a numeric literal: intern, then `CONST idx`.
pub open spec fn spec_numeric_literal(st: CState, bits: u64) -> CState {
    let (st1, i) = intern_num(st, bits);
    emit2(st1, OP_CONST, i as usize)
}

/// Compiles a boolean literal: booleans are never deduplicated — every
/// occurrence appends a fresh pool entry.
pub open spec fn spec_boolean_literal(st: CState, b: bool) -> CState {
    let st1 = CState { consts: st.consts.push(ConstV::Boolean(b)), ..st };
    emit2(st1, OP_CONST, (st.consts.len() as int) as usize)
}

/// Compiles a string literal: intern, then `CONST idx`.
pub open spec fn spec_string_literal(st: CState, text: Seq<char>) -> CState {
    let (st1, i) = intern_str(st, text);
    emit2(st1, OP_CONST, i as usize)
}

/// The opcode of a supported binary operator.
pub open spec fn binop_opcode(op: BinaryOperator) -> Option<usize> {
    match op {
        BinaryOperator::Add => Some(OP_ADD),
        BinaryOperator::Sub => Some(OP_SUB),
        BinaryOperator::Mul => Some(OP_MUL),
        BinaryOperator::Div => Some(OP_DIV),
        BinaryOperator::StrictEq => Some(OP_EQ),
        BinaryOperator::Unsupported => None,
    }
}

/// Compiles an identifier read: a bound name loads its slot; a known global
/// is not supported yet; anything else is an unresolved reference.
pub open spec fn spec_identifier(name: Seq<char>, st: CState, globals: Seq<Seq<char>>) -> Result<
    CState,
    CompileError,
> {
    match var_lookup(st.vars, name) {
        Some(i) => Ok(emit2(st, OP_LOAD_CONTEXT, i as usize)),
        None => if globals.contains(name) {
            Err(CompileError::UnsupportedConstruct)
        } else {
            Err(CompileError::UnboundIdentifier)
        },
    }
}

/// Compiles one expression: literals push constants, binary expressions
/// compile left then right then the operator's opcode, identifiers load
/// their slot.
pub open spec fn spec_expression(e: Expression, st: CState, globals: Seq<Seq<char>>) -> Result<
    CState,
    CompileError,
>
    decreases e,
{
    match e {
        Expression::NumericLiteral(bits) => Ok(spec_numeric_literal(st, bits)),
        Expression::BooleanLiteral(b) => Ok(spec_boolean_literal(st, b)),
        Expression::StringLiteral(text) => Ok(spec_string_literal(st, text@)),
        Expression::Binary(op, left, right) => match spec_expression(*left, st, globals) {
            Err(er) => Err(er),
            Ok(st1) => match spec_expression(*right, st1, globals) {
                Err(er) => Err(er),
                Ok(st2) => match binop_opcode(op) {
                    Some(opc) => Ok(emit1(st2, opc)),
                    None => Err(CompileError::UnsupportedOperator),
                },
            },
        },
        Expression::Identifier(name) => spec_identifier(name@, st, globals),
        Expression::Unsupported => Err(CompileError::UnsupportedExpression),
    }
}

/// Compiles a declarator's initializer, if any: the initializer's code, then
/// `SET_CONTEXT slot`.
pub open spec fn spec_declarator_init(
    init: Option<Expression>,
    idx: usize,
    st: CState,
    globals: Seq<Seq<char>>,
) -> Result<CState, CompileError> {
    match init {
        None => Ok(st),
        Some(e) => match spec_expression(e, st, globals) {
            Err(er) => Err(er),
            Ok(st1) => Ok(emit2(st1, OP_SET_CONTEXT, idx)),
        },
    }
}

/// Binds one object-pattern property per step: each identifier key allocates
/// a slot and re-runs the same initializer for it.
pub open spec fn spec_object_pattern(
    keys: Seq<PropertyKey>,
    i: int,
    init: Option<Expression>,
    st: CState,
    globals: Seq<Seq<char>>,
) -> Result<CState, CompileError>
    decreases keys.len() - i,
{
    if i < 0 || i >= keys.len() {
        Ok(st)
    } else {
        match keys[i] {
            PropertyKey::Identifier(name) => {
                let idx = st.vars.len() as usize;
                let st1 = CState { vars: st.vars.push(name@), ..st };
                match spec_declarator_init(init, idx, st1, globals) {
                    Err(er) => Err(er),
                    Ok(st2) => spec_object_pattern(keys, i + 1, init, st2, globals),
                }
            },
            PropertyKey::Expression => Err(CompileError::UnsupportedPropertyKey),
            PropertyKey::Unsupported => Err(CompileError::UnsupportedPropertyKey),
        }
    }
}

/// Destructures one binding pattern against one (re-supplied) initializer.
pub open spec fn spec_binding_pattern(
    p: BindingPattern,
    init: Option<Expression>,
    st: CState,
    globals: Seq<Seq<char>>,
) -> Result<CState, CompileError>
    decreases p, 0int,
{
    match p {
        BindingPattern::Identifier(name) => {
            let idx = st.vars.len() as usize;
            let st1 = CState { vars: st.vars.push(name@), ..st };
            spec_declarator_init(init, idx, st1, globals)
        },
        BindingPattern::Array(elems) => spec_array_pattern(elems@, 0, init, st, globals),
        BindingPattern::Object(keys) => spec_object_pattern(keys@, 0, init, st, globals),
        BindingPattern::Assignment => Err(CompileError::UnsupportedBindingPattern),
    }
}

/// Binds one array-pattern element per step, skipping holes; each present
/// element is bound against the same initializer.
pub open spec fn spec_array_pattern(
    elems: Seq<Option<BindingPattern>>,
    i: int,
    init: Option<Expression>,
    st: CState,
    globals: Seq<Seq<char>>,
) -> Result<CState, CompileError>
    decreases elems, elems.len() - i,
{
    if i < 0 || i >= elems.len() {
        Ok(st)
    } else {
        match elems[i] {
            None => spec_array_pattern(elems, i + 1, init, st, globals),
            Some(p) => match spec_binding_pattern(p, init, st, globals) {
                Err(er) => Err(er),
                Ok(st1) => spec_array_pattern(elems, i + 1, init, st1, globals),
            },
        }
    }
}

/// Binds one declarator per step.
pub open spec fn spec_declarators(
    ds: Seq<Declarator>,
    i: int,
    st: CState,
    globals: Seq<Seq<char>>,
) -> Result<CState, CompileError>
    decreases ds.len() - i,
{
    if i < 0 || i >= ds.len() {
        Ok(st)
    } else {
        match spec_binding_pattern(ds[i].id, ds[i].init, st, globals) {
            Err(er) => Err(er),
            Ok(st1) => spec_declarators(ds, i + 1, st1, globals),
        }
    }
}

/// Compiles a declaration: only `let` variable declarations are supported.
pub open spec fn spec_declaration(d: Declaration, st: CState, globals: Seq<Seq<char>>) -> Result<
    CState,
    CompileError,
> {
    match d {
        Declaration::Variable(kind, ds) => match kind {
            VariableDeclarationKind::Let => spec_declarators(ds@, 0, st, globals),
            _ => Err(CompileError::UnsupportedDeclaration),
        },
        Declaration::Unsupported => Err(CompileError::UnsupportedDeclaration),
    }
}

/// Compiles one statement. The `if` arm is the two-slot backpatch: emit
/// `JUMP_IF_FALSE 0` before the consequent and `JUMP 0` after it, patch the
/// first to the start of the alternate (or the join point), compile the
/// alternate if present, then patch the second to the join point.
pub open spec fn spec_statement(s: Statement, st: CState, globals: Seq<Seq<char>>) -> Result<
    CState,
    CompileError,
>
    decreases s, 0int,
{
    match s {
        Statement::Expression(e) => spec_expression(e, st, globals),
        Statement::Declaration(d) => spec_declaration(d, st, globals),
        Statement::If(test, consequent, alternate) => match spec_expression(test, st, globals) {
            Err(er) => Err(er),
            Ok(st1) => {
                let jump_if_false_address = st1.code.len() as int + 1;
                let st2 = emit2(st1, OP_JUMP_IF_FALSE, 0);
                match spec_statement(*consequent, st2, globals) {
                    Err(er) => Err(er),
                    Ok(st3) => {
                        let jump_address = st3.code.len() as int + 1;
                        let st4 = emit2(st3, OP_JUMP, 0);
                        let st5 = patch(st4, jump_if_false_address, st4.code.len() as usize);
                        let after_alternate = match alternate {
                            None => Ok(st5),
                            Some(a) => spec_statement(*a, st5, globals),
                        };
                        match after_alternate {
                            Err(er) => Err(er),
                            Ok(st6) => Ok(patch(st6, jump_address, st6.code.len() as usize)),
                        }
                    },
                }
            },
        },
        Statement::Empty => Ok(emit1(st, OP_HALT)),
        Statement::Block(body) => spec_statements(body@, 0, st, globals),
        Statement::Unsupported => Err(CompileError::UnsupportedStatement),
    }
}

/// Compiles one statement per step.
pub open spec fn spec_statements(
    ss: Seq<Statement>,
    i: int,
    st: CState,
    globals: Seq<Seq<char>>,
) -> Result<CState, CompileError>
    decreases ss, ss.len() - i,
{
    if i < 0 || i >= ss.len() {
        Ok(st)
    } else {
        match spec_statement(ss[i], st, globals) {
            Err(er) => Err(er),
            Ok(st1) => spec_statements(ss, i + 1, st1, globals),
        }
    }
}

/// Compiles a whole program: its statements in order, then a terminating
/// `HALT`.
pub open spec fn spec_generate(p: Program, st: CState, globals: Seq<Seq<char>>) -> Result<
    CState,
    CompileError,
> {
    match spec_statements(p.body@, 0, st, globals) {
        Err(er) => Err(er),
        Ok(st1) => Ok(emit1(st1, OP_HALT)),
    }
}


/// One compilation step only grows the program: the old code is preserved
/// word for word as a prefix (backpatching writes only into the step's own
/// region), the old constant pool is a prefix of the new one, and the old
/// slots keep their names.
pub open spec fn extends(a: CState, b: CState) -> bool {
    a.code.is_prefix_of(b.code) && a.consts.is_prefix_of(b.consts) && a.vars.is_prefix_of(b.vars)
}

pub proof fn lemma_prefix_refl<A>(s: Seq<A>)
    ensures
        s.is_prefix_of(s),
{
    assert(s.subrange(0, s.len() as int) =~= s);
}

pub proof fn lemma_prefix_push<A>(s: Seq<A>, x: A)
    ensures
        s.is_prefix_of(s.push(x)),
{
    assert(s.push(x).subrange(0, s.len() as int) =~= s);
}

pub proof fn lemma_prefix_trans<A>(a: Seq<A>, b: Seq<A>, c: Seq<A>)
    requires
        a.is_prefix_of(b),
        b.is_prefix_of(c),
    ensures
        a.is_prefix_of(c),
{
    assert forall|k: int| 0 <= k < a.len() implies c[k] == a[k] by {
        assert(a[k] == b.subrange(0, a.len() as int)[k]);
        assert(b[k] == c.subrange(0, b.len() as int)[k]);
    }
    assert(c.subrange(0, a.len() as int) =~= a);
}

pub proof fn lemma_extends_refl(a: CState)
    ensures
        extends(a, a),
{
    lemma_prefix_refl(a.code);
    lemma_prefix_refl(a.consts);
    lemma_prefix_refl(a.vars);
}

pub proof fn lemma_extends_trans(a: CState, b: CState, c: CState)
    requires
        extends(a, b),
        extends(b, c),
    ensures
        extends(a, c),
{
    lemma_prefix_trans(a.code, b.code, c.code);
    lemma_prefix_trans(a.consts, b.consts, c.consts);
    lemma_prefix_trans(a.vars, b.vars, c.vars);
}

pub proof fn lemma_extends_emit1(st: CState, w: usize)
    ensures
        extends(st, emit1(st, w)),
{
    lemma_prefix_push(st.code, w);
    lemma_prefix_refl(st.consts);
    lemma_prefix_refl(st.vars);
}

pub proof fn lemma_extends_emit2(st: CState, a: usize, b: usize)
    ensures
        extends(st, emit2(st, a, b)),
{
    lemma_prefix_push(st.code, a);
    lemma_prefix_push(st.code.push(a), b);
    lemma_prefix_trans(st.code, st.code.push(a), st.code.push(a).push(b));
    lemma_prefix_refl(st.consts);
    lemma_prefix_refl(st.vars);
}

/// A patch at a position at or past `keep` preserves the first `keep` code
/// words and everything else.
pub proof fn lemma_extends_patch(a: CState, st: CState, pos: int, w: usize)
    requires
        extends(a, st),
        a.code.len() <= pos < st.code.len(),
    ensures
        extends(a, patch(st, pos, w)),
        patch(st, pos, w).code.len() == st.code.len(),
{
    assert(patch(st, pos, w).code.subrange(0, a.code.len() as int) =~= a.code) by {
        assert forall|k: int| 0 <= k < a.code.len() implies st.code.update(pos, w)[k] == a.code[k] by {
            assert(a.code[k] == st.code.subrange(0, a.code.len() as int)[k]);
        }
    }
    lemma_prefix_refl(st.consts);
    lemma_prefix_refl(st.vars);
}

/// Compiling an expression extends the state.
pub proof fn lemma_expression_extends(e: Expression, st: CState, globals: Seq<Seq<char>>)
    ensures
        spec_expression(e, st, globals) matches Ok(post) ==> extends(st, post),
    decreases e,
{
    match e {
        Expression::NumericLiteral(bits) => {
            let pair = intern_num(st, bits);
            lemma_prefix_refl(st.code);
            lemma_prefix_refl(st.vars);
            match num_index(st.consts, bits) {
                Some(_) => {
                    lemma_prefix_refl(st.consts);
                },
                None => {
                    lemma_prefix_push(st.consts, ConstV::Number(bits));
                },
            }
            lemma_extends_emit2(pair.0, OP_CONST, pair.1 as usize);
            lemma_extends_trans(st, pair.0, spec_numeric_literal(st, bits));
        },
        Expression::BooleanLiteral(b) => {
            let st1 = CState { consts: st.consts.push(ConstV::Boolean(b)), ..st };
            lemma_prefix_refl(st.code);
            lemma_prefix_refl(st.vars);
            lemma_prefix_push(st.consts, ConstV::Boolean(b));
            lemma_extends_emit2(st1, OP_CONST, (st.consts.len() as int) as usize);
            lemma_extends_trans(st, st1, spec_boolean_literal(st, b));
        },
        Expression::StringLiteral(text) => {
            let pair = intern_str(st, text@);
            lemma_prefix_refl(st.code);
            lemma_prefix_refl(st.vars);
            match str_index(st.consts, text@) {
                Some(_) => {
                    lemma_prefix_refl(st.consts);
                },
                None => {
                    lemma_prefix_push(st.consts, ConstV::Str(text@));
                },
            }
            lemma_extends_emit2(pair.0, OP_CONST, pair.1 as usize);
            lemma_extends_trans(st, pair.0, spec_string_literal(st, text@));
        },
        Expression::Binary(op, left, right) => {
            lemma_expression_extends(*left, st, globals);
            match spec_expression(*left, st, globals) {
                Ok(st1) => {
                    lemma_expression_extends(*right, st1, globals);
                    match spec_expression(*right, st1, globals) {
                        Ok(st2) => {
                            lemma_extends_trans(st, st1, st2);
                            match binop_opcode(op) {
                                Some(opc) => {
                                    lemma_extends_emit1(st2, opc);
                                    lemma_extends_trans(st, st2, emit1(st2, opc));
                                },
                                None => {},
                            }
                        },
                        Err(_) => {},
                    }
                },
                Err(_) => {},
            }
        },
        Expression::Identifier(name) => {
            match var_lookup(st.vars, name@) {
                Some(i) => {
                    lemma_extends_emit2(st, OP_LOAD_CONTEXT, i as usize);
                },
                None => {},
            }
        },
        Expression::Unsupported => {},
    }
}

/// Compiling an initializer extends the state.
pub proof fn lemma_declarator_init_extends(
    init: Option<Expression>,
    idx: usize,
    st: CState,
    globals: Seq<Seq<char>>,
)
    ensures
        spec_declarator_init(init, idx, st, globals) matches Ok(post) ==> extends(st, post),
{
    match init {
        None => {
            lemma_extends_refl(st);
        },
        Some(e) => {
            lemma_expression_extends(e, st, globals);
            match spec_expression(e, st, globals) {
                Ok(st1) => {
                    lemma_extends_emit2(st1, OP_SET_CONTEXT, idx);
                    lemma_extends_trans(st, st1, emit2(st1, OP_SET_CONTEXT, idx));
                },
                Err(_) => {},
            }
        },
    }
}

/// Allocating a slot extends the state.
pub proof fn lemma_define_extends(st: CState, name: Seq<char>)
    ensures
        extends(st, CState { vars: st.vars.push(name), ..st }),
{
    lemma_prefix_refl(st.code);
    lemma_prefix_refl(st.consts);
    lemma_prefix_push(st.vars, name);
}

/// Binding one object-pattern suffix extends the state.
pub proof fn lemma_object_pattern_extends(
    keys: Seq<PropertyKey>,
    i: int,
    init: Option<Expression>,
    st: CState,
    globals: Seq<Seq<char>>,
)
    ensures
        spec_object_pattern(keys, i, init, st, globals) matches Ok(post) ==> extends(st, post),
    decreases keys.len() - i,
{
    if i < 0 || i >= keys.len() {
        lemma_extends_refl(st);
    } else {
        match keys[i] {
            PropertyKey::Identifier(name) => {
                let idx = st.vars.len() as usize;
                let st1 = CState { vars: st.vars.push(name@), ..st };
                lemma_define_extends(st, name@);
                lemma_declarator_init_extends(init, idx, st1, globals);
                match spec_declarator_init(init, idx, st1, globals) {
                    Ok(st2) => {
                        lemma_object_pattern_extends(keys, i + 1, init, st2, globals);
                        match spec_object_pattern(keys, i + 1, init, st2, globals) {
                            Ok(post) => {
                                lemma_extends_trans(st, st1, st2);
                                lemma_extends_trans(st, st2, post);
                            },
                            Err(_) => {},
                        }
                    },
                    Err(_) => {},
                }
            },
            _ => {},
        }
    }
}

/// Destructuring a binding pattern extends the state.
pub proof fn lemma_binding_pattern_extends(
    p: BindingPattern,
    init: Option<Expression>,
    st: CState,
    globals: Seq<Seq<char>>,
)
    ensures
        spec_binding_pattern(p, init, st, globals) matches Ok(post) ==> extends(st, post),
    decreases p, 0int,
{
    match p {
        BindingPattern::Identifier(name) => {
            let idx = st.vars.len() as usize;
            let st1 = CState { vars: st.vars.push(name@), ..st };
            lemma_define_extends(st, name@);
            lemma_declarator_init_extends(init, idx, st1, globals);
            match spec_declarator_init(init, idx, st1, globals) {
                Ok(post) => {
                    lemma_extends_trans(st, st1, post);
                },
                Err(_) => {},
            }
        },
        BindingPattern::Array(elems) => {
            lemma_array_pattern_extends(elems@, 0, init, st, globals);
        },
        BindingPattern::Object(keys) => {
            lemma_object_pattern_extends(keys@, 0, init, st, globals);
        },
        BindingPattern::Assignment => {},
    }
}

/// Binding one array-pattern suffix extends the state.
pub proof fn lemma_array_pattern_extends(
    elems: Seq<Option<BindingPattern>>,
    i: int,
    init: Option<Expression>,
    st: CState,
    globals: Seq<Seq<char>>,
)
    ensures
        spec_array_pattern(elems, i, init, st, globals) matches Ok(post) ==> extends(st, post),
    decreases elems, elems.len() - i,
{
    if i < 0 || i >= elems.len() {
        lemma_extends_refl(st);
    } else {
        match elems[i] {
            None => {
                lemma_array_pattern_extends(elems, i + 1, init, st, globals);
            },
            Some(p) => {
                lemma_binding_pattern_extends(p, init, st, globals);
                match spec_binding_pattern(p, init, st, globals) {
                    Ok(st1) => {
                        lemma_array_pattern_extends(elems, i + 1, init, st1, globals);
                        match spec_array_pattern(elems, i + 1, init, st1, globals) {
                            Ok(post) => {
                                lemma_extends_trans(st, st1, post);
                            },
                            Err(_) => {},
                        }
                    },
                    Err(_) => {},
                }
            },
        }
    }
}

/// Binding one declarator suffix extends the state.
pub proof fn lemma_declarators_extends(
    ds: Seq<Declarator>,
    i: int,
    st: CState,
    globals: Seq<Seq<char>>,
)
    ensures
        spec_declarators(ds, i, st, globals) matches Ok(post) ==> extends(st, post),
    decreases ds.len() - i,
{
    if i < 0 || i >= ds.len() {
        lemma_extends_refl(st);
    } else {
        lemma_binding_pattern_extends(ds[i].id, ds[i].init, st, globals);
        match spec_binding_pattern(ds[i].id, ds[i].init, st, globals) {
            Ok(st1) => {
                lemma_declarators_extends(ds, i + 1, st1, globals);
                match spec_declarators(ds, i + 1, st1, globals) {
                    Ok(post) => {
                        lemma_extends_trans(st, st1, post);
                    },
                    Err(_) => {},
                }
            },
            Err(_) => {},
        }
    }
}

/// Compiling a declaration extends the state.
pub proof fn lemma_declaration_extends(d: Declaration, st: CState, globals: Seq<Seq<char>>)
    ensures
        spec_declaration(d, st, globals) matches Ok(post) ==> extends(st, post),
{
    match d {
        Declaration::Variable(kind, ds) => match kind {
            VariableDeclarationKind::Let => {
                lemma_declarators_extends(ds@, 0, st, globals);
            },
            _ => {},
        },
        Declaration::Unsupported => {},
    }
}

/// Compiling a statement extends the state.
pub proof fn lemma_statement_extends(s: Statement, st: CState, globals: Seq<Seq<char>>)
    ensures
        spec_statement(s, st, globals) matches Ok(post) ==> extends(st, post),
    decreases s, 1int,
{
    match s {
        Statement::Expression(e) => {
            lemma_expression_extends(e, st, globals);
        },
        Statement::Declaration(d) => {
            lemma_declaration_extends(d, st, globals);
        },
        Statement::If(test, consequent, alternate) => {
            lemma_expression_extends(test, st, globals);
            match spec_expression(test, st, globals) {
                Err(_) => {},
                Ok(st1) => {
                    let jump_if_false_address = st1.code.len() as int + 1;
                    let st2 = emit2(st1, OP_JUMP_IF_FALSE, 0);
                    lemma_extends_emit2(st1, OP_JUMP_IF_FALSE, 0);
                    lemma_statement_extends(*consequent, st2, globals);
                    match spec_statement(*consequent, st2, globals) {
                        Err(_) => {},
                        Ok(st3) => {
                            let jump_address = st3.code.len() as int + 1;
                            let st4 = emit2(st3, OP_JUMP, 0);
                            lemma_extends_emit2(st3, OP_JUMP, 0);
                            let st5 = patch(st4, jump_if_false_address, st4.code.len() as usize);
                            lemma_extends_trans(st, st1, st2);
                            lemma_extends_trans(st, st2, st3);
                            lemma_extends_trans(st, st3, st4);
                            lemma_extends_patch(st, st4, jump_if_false_address, st4.code.len() as usize);
                            let after_alternate = match alternate {
                                None => Ok(st5),
                                Some(a) => spec_statement(*a, st5, globals),
                            };
                            match alternate {
                                None => {
                                    lemma_extends_refl(st5);
                                },
                                Some(a) => {
                                    lemma_statement_extends(*a, st5, globals);
                                },
                            }
                            match after_alternate {
                                Err(_) => {},
                                Ok(st6) => {
                                    lemma_extends_trans(st, st5, st6);
                                    lemma_extends_patch(st, st6, jump_address, st6.code.len() as usize);
                                },
                            }
                        },
                    }
                },
            }
        },
        Statement::Empty => {
            lemma_extends_emit1(st, OP_HALT);
        },
        Statement::Block(body) => {
            lemma_statements_extends(body@, 0, st, globals);
        },
        Statement::Unsupported => {},
    }
}

/// Compiling a statement suffix extends the state.
pub proof fn lemma_statements_extends(
    ss: Seq<Statement>,
    i: int,
    st: CState,
    globals: Seq<Seq<char>>,
)
    ensures
        spec_statements(ss, i, st, globals) matches Ok(post) ==> extends(st, post),
    decreases ss, ss.len() - i,
{
    if i < 0 || i >= ss.len() {
        lemma_extends_refl(st);
    } else {
        lemma_statement_extends(ss[i], st, globals);
        match spec_statement(ss[i], st, globals) {
            Ok(st1) => {
                lemma_statements_extends(ss, i + 1, st1, globals);
                match spec_statements(ss, i + 1, st1, globals) {
                    Ok(post) => {
                        lemma_extends_trans(st, st1, post);
                    },
                    Err(_) => {},
                }
            },
            Err(_) => {},
        }
    }
}


/// A finished compilation: the unit's name, its code, and its constant pool.
pub struct CompilerReturn {
    pub name: String,
    pub code: Vec<usize>,
    pub constants: Vec<Value>,
}

/// The compiler under construction: the unit's name, the code emitted so
/// far, and the constant pool so far. The scope table is injected into each
/// pass as `&mut Context`.
pub struct Compiler {
    name: String,
    code: Vec<usize>,
    constants: Vec<Value>,
}

impl Compiler {
    /// The code emitted so far.
    pub closed spec fn codev(self) -> Seq<usize> {
        self.code@
    }

    /// The constant pool so far, as mathematics.
    pub closed spec fn constsv(self) -> Seq<ConstV> {
        consts_view(self.constants@)
    }

    /// The unit's name.
    pub closed spec fn namev(self) -> Seq<char> {
        self.name@
    }

    /// This compiler's whole state, together with a scope table.
    pub open spec fn state(self, ctx: Context) -> CState {
        CState { code: self.codev(), consts: self.constsv(), vars: ctx@.vars }
    }

    /// A fresh compiler for one unit: empty code, empty constant pool.
    pub fn new(name: String) -> (r: Compiler)
        ensures
            r.codev() == Seq::<usize>::empty(),
            r.constsv() == Seq::<ConstV>::empty(),
            r.namev() == name@,
    {
        let r = Compiler { name, code: Vec::new(), constants: Vec::new() };
        proof {
            assert(r.constsv() =~= Seq::<ConstV>::empty());
        }
        r
    }

    /// Discards everything emitted past the given marks. The error paths use
    /// this so that a failed step leaves code and constants exactly as it
    /// found them.
    fn rollback(&mut self, code_len: usize, consts_len: usize)
        requires
            code_len <= old(self).codev().len(),
            consts_len <= old(self).constsv().len(),
        ensures
            final(self).codev() == old(self).codev().subrange(0, code_len as int),
            final(self).constsv() == old(self).constsv().subrange(0, consts_len as int),
            final(self).namev() == old(self).namev(),
    {
        self.code.truncate(code_len);
        self.constants.truncate(consts_len);
        proof {
            assert(self.constsv() =~= old(self).constsv().subrange(0, consts_len as int));
        }
    }

    /// Compiles a whole program with a fresh compiler named `main`. Exactly
    /// `spec_generate` from an empty program state over the injected scope
    /// table: on success the finished program, on failure the first error and
    /// no program at all.
    pub fn compile(program: &Program, ctx: &mut Context) -> (r: Result<CompilerReturn, CompileError>)
        ensures
            final(ctx)@.globals == old(ctx)@.globals,
            match spec_generate(
                *program,
                CState {
                    code: Seq::<usize>::empty(),
                    consts: Seq::<ConstV>::empty(),
                    vars: old(ctx)@.vars,
                },
                old(ctx)@.globals,
            ) {
                Ok(post) => r matches Ok(cr) && cr.code@ == post.code && consts_view(cr.constants@)
                    == post.consts && final(ctx)@.vars == post.vars && cr.name@ == "main"@,
                Err(e) => r == Err::<CompilerReturn, CompileError>(e) && final(ctx)@.vars == old(
                    ctx,
                )@.vars,
            },
    {
        let mut compiler = Compiler::new("main".to_owned());
        match compiler.generate(program, ctx) {
            Err(e) => Err(e),
            Ok(()) => Ok(compiler.finish()),
        }
    }

    /// Hands the finished program off, immutably, to the disassembler or the
    /// downstream virtual machine.
    pub fn finish(self) -> (r: CompilerReturn)
        ensures
            r.code@ == self.codev(),
            consts_view(r.constants@) == self.constsv(),
            r.name@ == self.namev(),
    {
        CompilerReturn { name: self.name, code: self.code, constants: self.constants }
    }

    /// Emits code for every top-level statement in order, then the
    /// terminating `HALT`. Exactly `spec_generate`.
    pub fn generate(&mut self, program: &Program, ctx: &mut Context) -> (r: Result<
        (),
        CompileError,
    >)
        ensures
            final(self).namev() == old(self).namev(),
            final(ctx)@.globals == old(ctx)@.globals,
            match spec_generate(*program, old(self).state(*old(ctx)), old(ctx)@.globals) {
                Ok(post) => r is Ok && final(self).state(*final(ctx)) == post,
                Err(e) => r == Err::<(), CompileError>(e) && final(self).state(*final(ctx))
                    == old(self).state(*old(ctx)),
            },
    {
        match self.generate_block_statement(&program.body, ctx) {
            Err(e) => Err(e),
            Ok(()) => {
                self.emit(OP_HALT);
                proof {
                    assert(spec_generate(*program, old(self).state(*old(ctx)), old(ctx)@.globals)
                        matches Ok(post) ==> final(self).state(*final(ctx)) =~= post);
                }
                Ok(())
            },
        }
    }

    /// Compiles one statement. Exactly `spec_statement`.
    pub fn generate_statement(&mut self, statement: &Statement, ctx: &mut Context) -> (r: Result<
        (),
        CompileError,
    >)
        ensures
            final(self).namev() == old(self).namev(),
            final(ctx)@.globals == old(ctx)@.globals,
            match spec_statement(*statement, old(self).state(*old(ctx)), old(ctx)@.globals) {
                Ok(post) => r is Ok && final(self).state(*final(ctx)) == post,
                Err(e) => r == Err::<(), CompileError>(e) && final(self).state(*final(ctx))
                    == old(self).state(*old(ctx)),
            },
        decreases *statement, 1int,
    {
        match statement {
            Statement::Expression(e) => self.generate_expression(e, ctx),
            Statement::Declaration(d) => self.generate_declaration(d, ctx),
            Statement::If(_, _, _) => self.generate_if_statement(statement, ctx),
            Statement::Empty => {
                self.generate_empty_statement();
                proof {
                    assert(final(self).state(*final(ctx)) =~= emit1(
                        old(self).state(*old(ctx)),
                        OP_HALT,
                    ));
                }
                Ok(())
            },
            Statement::Block(body) => self.generate_block_statement(body, ctx),
            Statement::Unsupported => Err(CompileError::UnsupportedStatement),
        }
    }

    /// Compiles each statement of a block in order, in the same scope.
    /// Exactly `spec_statements`.
    pub fn generate_block_statement(&mut self, body: &Vec<Statement>, ctx: &mut Context) -> (r:
        Result<(), CompileError>)
        ensures
            final(self).namev() == old(self).namev(),
            final(ctx)@.globals == old(ctx)@.globals,
            match spec_statements(body@, 0, old(self).state(*old(ctx)), old(ctx)@.globals) {
                Ok(post) => r is Ok && final(self).state(*final(ctx)) == post,
                Err(e) => r == Err::<(), CompileError>(e) && final(self).state(*final(ctx))
                    == old(self).state(*old(ctx)),
            },
        decreases *body, 0int,
    {
        let mark_code = self.code.len();
        let mark_consts = self.constants.len();
        let mark_vars = ctx.variable_count();
        let n = body.len();
        let mut i: usize = 0;
        proof {
            lemma_extends_refl(old(self).state(*old(ctx)));
        }
        while i < n
            invariant
                n == body.len(),
                i <= n,
                mark_code == old(self).codev().len(),
                mark_consts == old(self).constsv().len(),
                mark_vars == old(ctx)@.vars.len(),
                self.namev() == old(self).namev(),
                ctx@.globals == old(ctx)@.globals,
                extends(old(self).state(*old(ctx)), self.state(*ctx)),
                spec_statements(body@, 0, old(self).state(*old(ctx)), old(ctx)@.globals)
                    == spec_statements(body@, i as int, self.state(*ctx), old(ctx)@.globals),
            decreases n - i,
        {
            let ghost cur = self.state(*ctx);
            match self.generate_statement(&body[i], ctx) {
                Err(e) => {
                    self.rollback(mark_code, mark_consts);
                    ctx.rollback_variables(mark_vars);
                    proof {
                        assert(self.codev() =~= old(self).codev());
                        assert(self.constsv() =~= old(self).constsv());
                        assert(ctx@.vars =~= old(ctx)@.vars);
                    }
                    return Err(e);
                },
                Ok(()) => {
                    proof {
                        lemma_statement_extends(body@[i as int], cur, old(ctx)@.globals);
                        lemma_extends_trans(old(self).state(*old(ctx)), cur, self.state(*ctx));
                    }
                },
            }
            i = i + 1;
        }
        Ok(())
    }

    /// Compiles a declaration; only variable declarations are supported.
    /// Exactly `spec_declaration`.
    pub fn generate_declaration(&mut self, declaration: &Declaration, ctx: &mut Context) -> (r:
        Result<(), CompileError>)
        ensures
            final(self).namev() == old(self).namev(),
            final(ctx)@.globals == old(ctx)@.globals,
            match spec_declaration(*declaration, old(self).state(*old(ctx)), old(ctx)@.globals) {
                Ok(post) => r is Ok && final(self).state(*final(ctx)) == post,
                Err(e) => r == Err::<(), CompileError>(e) && final(self).state(*final(ctx))
                    == old(self).state(*old(ctx)),
            },
    {
        match declaration {
            Declaration::Variable(_, _) => self.generate_variable_declaration(declaration, ctx),
            Declaration::Unsupported => Err(CompileError::UnsupportedDeclaration),
        }
    }

    /// Compiles a variable declaration; only the `let` kind is supported.
    pub fn generate_variable_declaration(
        &mut self,
        declaration: &Declaration,
        ctx: &mut Context,
    ) -> (r: Result<(), CompileError>)
        requires
            declaration is Variable,
        ensures
            final(self).namev() == old(self).namev(),
            final(ctx)@.globals == old(ctx)@.globals,
            match spec_declaration(*declaration, old(self).state(*old(ctx)), old(ctx)@.globals) {
                Ok(post) => r is Ok && final(self).state(*final(ctx)) == post,
                Err(e) => r == Err::<(), CompileError>(e) && final(self).state(*final(ctx))
                    == old(self).state(*old(ctx)),
            },
    {
        match declaration {
            Declaration::Variable(kind, declarations) => match kind {
                VariableDeclarationKind::Let => self.generate_let_variable_declaration(
                    declarations,
                    ctx,
                ),
                _ => Err(CompileError::UnsupportedDeclaration),
            },
            _ => unreached(),
        }
    }

    /// Compiles each declarator of a `let` declaration in order. Exactly
    /// `spec_declarators`.
    pub fn generate_let_variable_declaration(
        &mut self,
        declarations: &Vec<Declarator>,
        ctx: &mut Context,
    ) -> (r: Result<(), CompileError>)
        ensures
            final(self).namev() == old(self).namev(),
            final(ctx)@.globals == old(ctx)@.globals,
            match spec_declarators(declarations@, 0, old(self).state(*old(ctx)), old(ctx)@.globals) {
                Ok(post) => r is Ok && final(self).state(*final(ctx)) == post,
                Err(e) => r == Err::<(), CompileError>(e) && final(self).state(*final(ctx))
                    == old(self).state(*old(ctx)),
            },
    {
        let mark_code = self.code.len();
        let mark_consts = self.constants.len();
        let mark_vars = ctx.variable_count();
        let n = declarations.len();
        let mut i: usize = 0;
        proof {
            lemma_extends_refl(old(self).state(*old(ctx)));
        }
        while i < n
            invariant
                n == declarations.len(),
                i <= n,
                mark_code == old(self).codev().len(),
                mark_consts == old(self).constsv().len(),
                mark_vars == old(ctx)@.vars.len(),
                self.namev() == old(self).namev(),
                ctx@.globals == old(ctx)@.globals,
                extends(old(self).state(*old(ctx)), self.state(*ctx)),
                spec_declarators(declarations@, 0, old(self).state(*old(ctx)), old(ctx)@.globals)
                    == spec_declarators(
                    declarations@,
                    i as int,
                    self.state(*ctx),
                    old(ctx)@.globals,
                ),
            decreases n - i,
        {
            let d = &declarations[i];
            let ghost cur = self.state(*ctx);
            match self._binding_pattern(&d.id, &d.init, ctx) {
                Err(e) => {
                    self.rollback(mark_code, mark_consts);
                    ctx.rollback_variables(mark_vars);
                    proof {
                        assert(self.codev() =~= old(self).codev());
                        assert(self.constsv() =~= old(self).constsv());
                        assert(ctx@.vars =~= old(ctx)@.vars);
                    }
                    return Err(e);
                },
                Ok(()) => {
                    proof {
                        lemma_binding_pattern_extends(
                            declarations@[i as int].id,
                            declarations@[i as int].init,
                            cur,
                            old(ctx)@.globals,
                        );
                        lemma_extends_trans(old(self).state(*old(ctx)), cur, self.state(*ctx));
                    }
                },
            }
            i = i + 1;
        }
        Ok(())
    }

    /// Destructures a binding pattern against one (re-supplied) initializer:
    /// each bound name allocates exactly one fresh slot, and an initializer
    /// compiles to its code followed by `SET_CONTEXT slot`. Exactly
    /// `spec_binding_pattern`.
    pub fn _binding_pattern(
        &mut self,
        pattern: &BindingPattern,
        init: &Option<Expression>,
        ctx: &mut Context,
    ) -> (r: Result<(), CompileError>)
        ensures
            final(self).namev() == old(self).namev(),
            final(ctx)@.globals == old(ctx)@.globals,
            match spec_binding_pattern(
                *pattern,
                *init,
                old(self).state(*old(ctx)),
                old(ctx)@.globals,
            ) {
                Ok(post) => r is Ok && final(self).state(*final(ctx)) == post,
                Err(e) => r == Err::<(), CompileError>(e) && final(self).state(*final(ctx))
                    == old(self).state(*old(ctx)),
            },
        decreases *pattern,
    {
        let mark_code = self.code.len();
        let mark_consts = self.constants.len();
        let mark_vars = ctx.variable_count();
        match pattern {
            BindingPattern::Identifier(ident) => {
                let idx = ctx.define_variable(ident.clone(), None);
                match self.declarator_init(init, idx, ctx) {
                    Ok(()) => Ok(()),
                    Err(e) => {
                        ctx.rollback_variables(mark_vars);
                        proof {
                            assert(ctx@.vars =~= old(ctx)@.vars);
                        }
                        Err(e)
                    },
                }
            },
            BindingPattern::Array(elems) => {
                let n = elems.len();
                let mut i: usize = 0;
                proof {
                    lemma_extends_refl(old(self).state(*old(ctx)));
                }
                while i < n
                    invariant
                        *pattern == BindingPattern::Array(*elems),
                        n == elems.len(),
                        i <= n,
                        mark_code == old(self).codev().len(),
                        mark_consts == old(self).constsv().len(),
                        mark_vars == old(ctx)@.vars.len(),
                        self.namev() == old(self).namev(),
                        ctx@.globals == old(ctx)@.globals,
                        extends(old(self).state(*old(ctx)), self.state(*ctx)),
                        spec_array_pattern(
                            elems@,
                            0,
                            *init,
                            old(self).state(*old(ctx)),
                            old(ctx)@.globals,
                        ) == spec_array_pattern(
                            elems@,
                            i as int,
                            *init,
                            self.state(*ctx),
                            old(ctx)@.globals,
                        ),
                    decreases n - i,
                {
                    let element_opt = &elems[i];
                    proof {
                        assert(*element_opt == elems@[i as int]);
                    }
                    if element_opt.is_some() {
                        let element = element_opt.as_ref().unwrap();
                        proof {
                            assert(*element == elems@[i as int]->0);
                        }
                        let ghost cur = self.state(*ctx);
                        match self._binding_pattern(element, init, ctx) {
                            Err(e) => {
                                self.rollback(mark_code, mark_consts);
                                ctx.rollback_variables(mark_vars);
                                proof {
                                    assert(self.codev() =~= old(self).codev());
                                    assert(self.constsv() =~= old(self).constsv());
                                    assert(ctx@.vars =~= old(ctx)@.vars);
                                }
                                return Err(e);
                            },
                            Ok(()) => {
                                proof {
                                    lemma_binding_pattern_extends(
                                        *element,
                                        *init,
                                        cur,
                                        old(ctx)@.globals,
                                    );
                                    lemma_extends_trans(
                                        old(self).state(*old(ctx)),
                                        cur,
                                        self.state(*ctx),
                                    );
                                }
                            },
                        }
                    }
                    i = i + 1;
                }
                Ok(())
            },
            BindingPattern::Object(keys) => {
                let n = keys.len();
                let mut i: usize = 0;
                proof {
                    lemma_extends_refl(old(self).state(*old(ctx)));
                }
                while i < n
                    invariant
                        *pattern == BindingPattern::Object(*keys),
                        n == keys.len(),
                        i <= n,
                        mark_code == old(self).codev().len(),
                        mark_consts == old(self).constsv().len(),
                        mark_vars == old(ctx)@.vars.len(),
                        self.namev() == old(self).namev(),
                        ctx@.globals == old(ctx)@.globals,
                        extends(old(self).state(*old(ctx)), self.state(*ctx)),
                        spec_object_pattern(
                            keys@,
                            0,
                            *init,
                            old(self).state(*old(ctx)),
                            old(ctx)@.globals,
                        ) == spec_object_pattern(
                            keys@,
                            i as int,
                            *init,
                            self.state(*ctx),
                            old(ctx)@.globals,
                        ),
                    decreases n - i,
                {
                    let key = &keys[i];
                    proof {
                        assert(*key == keys@[i as int]);
                    }
                    let ghost cur = self.state(*ctx);
                    match key {
                        PropertyKey::Identifier(ident) => {
                            proof {
                                assert(*key == PropertyKey::Identifier(*ident));
                            }
                            let idx = ctx.define_variable(ident.clone(), None);
                            let ghost cur1 = self.state(*ctx);
                            match self.declarator_init(init, idx, ctx) {
                                Err(e) => {
                                    proof {
                                        lemma_define_extends(cur, ident@);
                                        lemma_extends_trans(
                                            old(self).state(*old(ctx)),
                                            cur,
                                            cur1,
                                        );
                                    }
                                    self.rollback(mark_code, mark_consts);
                                ctx.rollback_variables(mark_vars);
                                proof {
                                    assert(self.codev() =~= old(self).codev());
                                    assert(self.constsv() =~= old(self).constsv());
                                    assert(ctx@.vars =~= old(ctx)@.vars);
                                }
                                return Err(e);
                                },
                                Ok(()) => {
                                    proof {
                                        lemma_define_extends(cur, ident@);
                                        lemma_declarator_init_extends(
                                            *init,
                                            idx,
                                            cur1,
                                            old(ctx)@.globals,
                                        );
                                        lemma_extends_trans(
                                            old(self).state(*old(ctx)),
                                            cur,
                                            cur1,
                                        );
                                        lemma_extends_trans(
                                            old(self).state(*old(ctx)),
                                            cur1,
                                            self.state(*ctx),
                                        );
                                    }
                                },
                            }
                        },
                        _ => {
                            self.rollback(mark_code, mark_consts);
                            ctx.rollback_variables(mark_vars);
                            proof {
                                assert(self.codev() =~= old(self).codev());
                                assert(self.constsv() =~= old(self).constsv());
                                assert(ctx@.vars =~= old(ctx)@.vars);
                            }
                            return Err(CompileError::UnsupportedPropertyKey);
                        },
                    }
                    i = i + 1;
                }
                Ok(())
            },
            BindingPattern::Assignment => Err(CompileError::UnsupportedBindingPattern),
        }
    }

    /// Compiles a declarator's initializer, if any, then `SET_CONTEXT idx`.
    /// Exactly `spec_declarator_init`.
    pub fn declarator_init(
        &mut self,
        init: &Option<Expression>,
        idx: usize,
        ctx: &mut Context,
    ) -> (r: Result<(), CompileError>)
        ensures
            final(self).namev() == old(self).namev(),
            final(ctx)@.globals == old(ctx)@.globals,
            match spec_declarator_init(*init, idx, old(self).state(*old(ctx)), old(ctx)@.globals) {
                Ok(post) => r is Ok && final(self).state(*final(ctx)) == post,
                Err(e) => r == Err::<(), CompileError>(e) && final(self).state(*final(ctx))
                    == old(self).state(*old(ctx)),
            },
    {
        match init {
            Some(e) => match self.generate_expression(e, ctx) {
                Err(er) => Err(er),
                Ok(()) => {
                    self.emit(OP_SET_CONTEXT);
                    self.emit(idx);
                    proof {
                        assert(spec_declarator_init(
                            *init,
                            idx,
                            old(self).state(*old(ctx)),
                            old(ctx)@.globals,
                        ) matches Ok(post) ==> final(self).state(*final(ctx)) =~= post);
                    }
                    Ok(())
                },
            },
            None => Ok(()),
        }
    }

    /// Lowers `if`/`else` with the two-slot backpatch: `JUMP_IF_FALSE` with a
    /// placeholder before the consequent and `JUMP` with a placeholder after
    /// it; the first patched to the start of the alternate (or the join
    /// point), the second to the join point. Targets are absolute code
    /// indices.
    pub fn generate_if_statement(&mut self, statement: &Statement, ctx: &mut Context) -> (r:
        Result<(), CompileError>)
        requires
            statement is If,
        ensures
            final(self).namev() == old(self).namev(),
            final(ctx)@.globals == old(ctx)@.globals,
            match spec_statement(*statement, old(self).state(*old(ctx)), old(ctx)@.globals) {
                Ok(post) => r is Ok && final(self).state(*final(ctx)) == post,
                Err(e) => r == Err::<(), CompileError>(e) && final(self).state(*final(ctx))
                    == old(self).state(*old(ctx)),
            },
        decreases *statement, 0int,
    {
        let mark_code = self.code.len();
        let mark_consts = self.constants.len();
        let mark_vars = ctx.variable_count();
        match statement {
            Statement::If(test, consequent, alternate) => {
                match self.generate_expression(test, ctx) {
                    Err(e) => {
                        return Err(e);
                    },
                    Ok(()) => {},
                }
                self.emit(OP_JUMP_IF_FALSE);
                let jump_if_false_address = self.code.len();
                self.emit(0);
                match self.generate_statement(&**consequent, ctx) {
                    Err(e) => {
                        proof {
                            let g = old(ctx)@.globals;
                            let pre = old(self).state(*old(ctx));
                            let st1 = spec_expression(*test, pre, g)->Ok_0;
                            lemma_expression_extends(*test, pre, g);
                            lemma_extends_emit2(st1, OP_JUMP_IF_FALSE, 0);
                            lemma_extends_trans(pre, st1, emit2(st1, OP_JUMP_IF_FALSE, 0));
                        }
                        self.rollback(mark_code, mark_consts);
                        ctx.rollback_variables(mark_vars);
                        proof {
                            assert(self.codev() =~= old(self).codev());
                            assert(self.constsv() =~= old(self).constsv());
                            assert(ctx@.vars =~= old(ctx)@.vars);
                        }
                        return Err(e);
                    },
                    Ok(()) => {},
                }
                self.emit(OP_JUMP);
                let jump_address = self.code.len();
                self.emit(0);
                let false_target = self.code.len();
                proof {
                    let g = old(ctx)@.globals;
                    let st0 = old(self).state(*old(ctx));
                    let st1 = spec_expression(*test, st0, g)->Ok_0;
                    let st2 = emit2(st1, OP_JUMP_IF_FALSE, 0);
                    lemma_statement_extends(**consequent, st2, g);
                }
                self.code[jump_if_false_address] = false_target;
                match alternate {
                    Some(a) => {
                        match self.generate_statement(&**a, ctx) {
                            Err(e) => {
                                proof {
                                    let g = old(ctx)@.globals;
                                    let pre = old(self).state(*old(ctx));
                                    let st1 = spec_expression(*test, pre, g)->Ok_0;
                                    let st2 = emit2(st1, OP_JUMP_IF_FALSE, 0);
                                    let st3 = spec_statement(**consequent, st2, g)->Ok_0;
                                    let st4 = emit2(st3, OP_JUMP, 0);
                                    lemma_expression_extends(*test, pre, g);
                                    lemma_extends_emit2(st1, OP_JUMP_IF_FALSE, 0);
                                    lemma_statement_extends(**consequent, st2, g);
                                    lemma_extends_emit2(st3, OP_JUMP, 0);
                                    lemma_extends_trans(pre, st1, st2);
                                    lemma_extends_trans(pre, st2, st3);
                                    lemma_extends_trans(pre, st3, st4);
                                    lemma_extends_patch(
                                        pre,
                                        st4,
                                        st1.code.len() as int + 1,
                                        st4.code.len() as usize,
                                    );
                                }
                                self.rollback(mark_code, mark_consts);
                                ctx.rollback_variables(mark_vars);
                                proof {
                                    assert(self.codev() =~= old(self).codev());
                                    assert(self.constsv() =~= old(self).constsv());
                                    assert(ctx@.vars =~= old(ctx)@.vars);
                                }
                                return Err(e);
                            },
                            Ok(()) => {},
                        }
                    },
                    None => {},
                }
                let join_target = self.code.len();
                proof {
                    let g = old(ctx)@.globals;
                    let st0 = old(self).state(*old(ctx));
                    let st1 = spec_expression(*test, st0, g)->Ok_0;
                    let st2 = emit2(st1, OP_JUMP_IF_FALSE, 0);
                    let st3 = spec_statement(**consequent, st2, g)->Ok_0;
                    let st4 = emit2(st3, OP_JUMP, 0);
                    let st5 = patch(st4, st1.code.len() as int + 1, st4.code.len() as usize);
                    match alternate {
                        Some(a) => {
                            lemma_statement_extends(**a, st5, g);
                        },
                        None => {},
                    }
                }
                self.code[jump_address] = join_target;
                proof {
                    assert(spec_statement(*statement, old(self).state(*old(ctx)), old(ctx)@.globals)
                        matches Ok(post) ==> final(self).state(*final(ctx)) =~= post);
                }
                Ok(())
            },
            _ => unreached(),
        }
    }

    /// An empty statement emits the same opcode as program termination — a
    /// documented oddity of this instruction set kept for compatibility.
    pub fn generate_empty_statement(&mut self)
        ensures
            final(self).codev() == old(self).codev().push(OP_HALT),
            final(self).constsv() == old(self).constsv(),
            final(self).namev() == old(self).namev(),
    {
        self.emit(OP_HALT);
    }

    /// Compiles one expression. Exactly `spec_expression`.
    pub fn generate_expression(&mut self, expression: &Expression, ctx: &mut Context) -> (r:
        Result<(), CompileError>)
        ensures
            final(self).namev() == old(self).namev(),
            final(ctx)@.globals == old(ctx)@.globals,
            match spec_expression(*expression, old(self).state(*old(ctx)), old(ctx)@.globals) {
                Ok(post) => r is Ok && final(self).state(*final(ctx)) == post,
                Err(e) => r == Err::<(), CompileError>(e) && final(self).state(*final(ctx))
                    == old(self).state(*old(ctx)),
            },
        decreases *expression, 1int,
    {
        match expression {
            Expression::NumericLiteral(value) => {
                self.generate_numeric_literal(*value);
                proof {
                    assert(final(self).state(*final(ctx)) =~= spec_numeric_literal(
                        old(self).state(*old(ctx)),
                        *value,
                    ));
                }
                Ok(())
            },
            Expression::BooleanLiteral(value) => {
                self.generate_boolean_literal(*value);
                proof {
                    assert(final(self).state(*final(ctx)) =~= spec_boolean_literal(
                        old(self).state(*old(ctx)),
                        *value,
                    ));
                }
                Ok(())
            },
            Expression::StringLiteral(literal) => {
                self.generate_string_literal(literal);
                proof {
                    assert(final(self).state(*final(ctx)) =~= spec_string_literal(
                        old(self).state(*old(ctx)),
                        literal@,
                    ));
                }
                Ok(())
            },
            Expression::Binary(_, _, _) => self.generate_binary_expression(expression, ctx),
            Expression::Identifier(name) => self.generate_identifier(name, ctx),
            Expression::Unsupported => Err(CompileError::UnsupportedExpression),
        }
    }

    /// Compiles an identifier read: a bound name emits `LOAD_CONTEXT slot`;
    /// an unbound one is an error, worded apart for known globals. Exactly
    /// `spec_identifier`.
    pub fn generate_identifier(&mut self, name: &String, ctx: &Context) -> (r: Result<
        (),
        CompileError,
    >)
        ensures
            final(self).namev() == old(self).namev(),
            match spec_identifier(
                name@,
                old(self).state(*ctx),
                ctx@.globals,
            ) {
                Ok(post) => r is Ok && final(self).state(*ctx) == post,
                Err(e) => r == Err::<(), CompileError>(e) && final(self).state(*ctx) == old(
                    self,
                ).state(*ctx),
            },
    {
        match ctx.get_variable_index(name) {
            Some(index) => {
                self.emit(OP_LOAD_CONTEXT);
                self.emit(index);
                proof {
                    assert(spec_identifier(name@, old(self).state(*ctx), ctx@.globals)
                        matches Ok(post) ==> final(self).state(*ctx) =~= post);
                }
                Ok(())
            },
            None => {
                if !ctx.is_global_variable(name) {
                    Err(CompileError::UnboundIdentifier)
                } else {
                    Err(CompileError::UnsupportedConstruct)
                }
            },
        }
    }

    /// Compiles a numeric literal: interned index, then `CONST idx`. Exactly
    /// `spec_numeric_literal`.
    pub fn generate_numeric_literal(&mut self, value: u64)
        ensures
            final(self).namev() == old(self).namev(),
            ({
                let pre = CState {
                    code: old(self).codev(),
                    consts: old(self).constsv(),
                    vars: Seq::<Seq<char>>::empty(),
                };
                let post = spec_numeric_literal(pre, value);
                final(self).codev() == post.code && final(self).constsv() == post.consts
            }),
    {
        let index = self.numerics_constants_index(value);
        self.emit(OP_CONST);
        self.emit(index);
    }

    /// Compiles a boolean literal: a fresh pool entry — booleans are never
    /// deduplicated — then `CONST idx`. Exactly `spec_boolean_literal`.
    pub fn generate_boolean_literal(&mut self, value: bool)
        ensures
            final(self).namev() == old(self).namev(),
            ({
                let pre = CState {
                    code: old(self).codev(),
                    consts: old(self).constsv(),
                    vars: Seq::<Seq<char>>::empty(),
                };
                let post = spec_boolean_literal(pre, value);
                final(self).codev() == post.code && final(self).constsv() == post.consts
            }),
    {
        self.constants.push(Value::Boolean(value));
        proof {
            assert(self.constsv() =~= old(self).constsv().push(ConstV::Boolean(value)));
        }
        let index = self.constants.len() - 1;
        self.emit(OP_CONST);
        self.emit(index);
    }

    /// Compiles a string literal: interned index, then `CONST idx`. Exactly
    /// `spec_string_literal`.
    pub fn generate_string_literal(&mut self, value: &String)
        ensures
            final(self).namev() == old(self).namev(),
            ({
                let pre = CState {
                    code: old(self).codev(),
                    consts: old(self).constsv(),
                    vars: Seq::<Seq<char>>::empty(),
                };
                let post = spec_string_literal(pre, value@);
                final(self).codev() == post.code && final(self).constsv() == post.consts
            }),
    {
        let index = self.string_constants_index(value);
        self.emit(OP_CONST);
        self.emit(index);
    }

    /// Appends one word to the code buffer.
    pub fn emit(&mut self, byte: usize)
        ensures
            final(self).codev() == old(self).codev().push(byte),
            final(self).constsv() == old(self).constsv(),
            final(self).namev() == old(self).namev(),
    {
        self.code.push(byte);
    }

    /// The pool index for a number: the first `Number` entry that is
    /// numerically equal is reused — IEEE equality, so a NaN reuses nothing
    /// and the two zeros reuse each other — else a fresh entry is appended.
    /// Exactly `num_index` / `intern_num`.
    pub fn numerics_constants_index(&mut self, value: u64) -> (idx: usize)
        ensures
            final(self).codev() == old(self).codev(),
            final(self).namev() == old(self).namev(),
            match num_index(old(self).constsv(), value) {
                Some(i) => idx == i && final(self).constsv() == old(self).constsv(),
                None => idx == old(self).constsv().len() && final(self).constsv() == old(
                    self,
                ).constsv().push(ConstV::Number(value)),
            },
    {
        let n = self.constants.len();
        let mut index: usize = 0;
        while index < n
            invariant
                n == self.constants.len(),
                index <= n,
                *self == *old(self),
                forall|j: int| 0 <= j < index ==> !num_match(self.constsv()[j], value),
            decreases n - index,
        {
            let current_value = &self.constants[index];
            if current_value.is_number() {
                if number_equal(current_value.get_number(), value) {
                    proof {
                        lemma_num_index(self.constsv(), value);
                        assert(num_match(self.constsv()[index as int], value));
                    }
                    return index;
                }
            }
            proof {
                assert(!num_match(self.constsv()[index as int], value));
            }
            index = index + 1;
        }
        proof {
            lemma_num_index(self.constsv(), value);
        }
        self.constants.push(Value::Number(value));
        proof {
            assert(self.constsv() =~= old(self).constsv().push(ConstV::Number(value)));
        }
        n
    }

    /// The pool index for a string: the first `Str` entry with the same text
    /// is reused, else a fresh entry is appended. Exactly `str_index` /
    /// `intern_str`.
    pub fn string_constants_index(&mut self, value: &String) -> (idx: usize)
        ensures
            final(self).codev() == old(self).codev(),
            final(self).namev() == old(self).namev(),
            match str_index(old(self).constsv(), value@) {
                Some(i) => idx == i && final(self).constsv() == old(self).constsv(),
                None => idx == old(self).constsv().len() && final(self).constsv() == old(
                    self,
                ).constsv().push(ConstV::Str(value@)),
            },
    {
        let n = self.constants.len();
        let mut index: usize = 0;
        while index < n
            invariant
                n == self.constants.len(),
                index <= n,
                *self == *old(self),
                forall|j: int| 0 <= j < index ==> self.constsv()[j] != ConstV::Str(value@),
            decreases n - index,
        {
            let current_value = &self.constants[index];
            if current_value.is_string() {
                if current_value.get_string().eq(value) {
                    proof {
                        lemma_str_index(self.constsv(), value@);
                        assert(self.constsv()[index as int] == ConstV::Str(value@));
                    }
                    return index;
                }
            }
            proof {
                assert(self.constsv()[index as int] != ConstV::Str(value@));
            }
            index = index + 1;
        }
        proof {
            lemma_str_index(self.constsv(), value@);
        }
        self.constants.push(Value::Str(value.clone()));
        proof {
            assert(self.constsv() =~= old(self).constsv().push(ConstV::Str(value@)));
        }
        n
    }

    /// Compiles a binary expression: left operand, right operand, then the
    /// operator's opcode; `+ - * / ===` only.
    pub fn generate_binary_expression(&mut self, expression: &Expression, ctx: &mut Context) -> (r:
        Result<(), CompileError>)
        requires
            expression is Binary,
        ensures
            final(self).namev() == old(self).namev(),
            final(ctx)@.globals == old(ctx)@.globals,
            match spec_expression(*expression, old(self).state(*old(ctx)), old(ctx)@.globals) {
                Ok(post) => r is Ok && final(self).state(*final(ctx)) == post,
                Err(e) => r == Err::<(), CompileError>(e) && final(self).state(*final(ctx))
                    == old(self).state(*old(ctx)),
            },
        decreases *expression, 0int,
    {
        let mark_code = self.code.len();
        let mark_consts = self.constants.len();
        let mark_vars = ctx.variable_count();
        match expression {
            Expression::Binary(operator, left, right) => {
                match self.generate_expression(&**left, ctx) {
                    Err(e) => {
                        return Err(e);
                    },
                    Ok(()) => {},
                }
                match self.generate_expression(&**right, ctx) {
                    Err(e) => {
                        proof {
                            lemma_expression_extends(
                                **left,
                                old(self).state(*old(ctx)),
                                old(ctx)@.globals,
                            );
                        }
                        self.rollback(mark_code, mark_consts);
                        ctx.rollback_variables(mark_vars);
                        proof {
                            assert(self.codev() =~= old(self).codev());
                            assert(self.constsv() =~= old(self).constsv());
                            assert(ctx@.vars =~= old(ctx)@.vars);
                        }
                        return Err(e);
                    },
                    Ok(()) => {},
                }
                match operator {
                    BinaryOperator::Add => {
                        self.emit(OP_ADD);
                        Ok(())
                    },
                    BinaryOperator::Sub => {
                        self.emit(OP_SUB);
                        Ok(())
                    },
                    BinaryOperator::Mul => {
                        self.emit(OP_MUL);
                        Ok(())
                    },
                    BinaryOperator::Div => {
                        self.emit(OP_DIV);
                        Ok(())
                    },
                    BinaryOperator::StrictEq => {
                        self.emit(OP_EQ);
                        Ok(())
                    },
                    BinaryOperator::Unsupported => {
                        proof {
                            let g = old(ctx)@.globals;
                            let pre = old(self).state(*old(ctx));
                            let st1 = spec_expression(**left, pre, g)->Ok_0;
                            lemma_expression_extends(**left, pre, g);
                            lemma_expression_extends(**right, st1, g);
                            lemma_extends_trans(pre, st1, spec_expression(**right, st1, g)->Ok_0);
                        }
                        self.rollback(mark_code, mark_consts);
                        ctx.rollback_variables(mark_vars);
                        proof {
                            assert(self.codev() =~= old(self).codev());
                            assert(self.constsv() =~= old(self).constsv());
                            assert(ctx@.vars =~= old(ctx)@.vars);
                        }
                        Err(CompileError::UnsupportedOperator)
                    },
                }
            },
            _ => unreached(),
        }
    }
}

} // verus!
