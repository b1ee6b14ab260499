//! The library's cross-cutting guarantees, stated and proved over the spec
//! compiler and the spec disassembler.

use vstd::prelude::*;

use crate::ast::{
    BindingPattern, Declaration, Declarator, Expression, Program, PropertyKey, Statement,
    VariableDeclarationKind,
};
use crate::bytecode::{
    has_operand, is_jump, OP_CONST, OP_HALT, OP_JUMP, OP_JUMP_IF_FALSE, OP_LOAD_CONTEXT,
    OP_SET_CONTEXT,
};
use crate::compiler::{
    binop_opcode, emit1, emit2, extends, intern_num, intern_str, lemma_array_pattern_extends,
    lemma_binding_pattern_extends, lemma_declarator_init_extends, lemma_declarators_extends,
    lemma_expression_extends, lemma_extends_emit1, lemma_extends_emit2, lemma_extends_refl,
    lemma_num_index, lemma_object_pattern_extends, lemma_statement_extends,
    lemma_statements_extends, lemma_str_index, num_index, num_match, patch, spec_array_pattern,
    spec_binding_pattern, spec_declaration, spec_declarator_init, spec_declarators,
    spec_expression, spec_generate, spec_object_pattern, spec_statement, spec_statements,
    str_index, CompileError, CState,
};
use crate::context::var_lookup;
use crate::disassembler::{spec_disassemble, Disassembler};
use crate::values::{num_eq, ConstV};

verus! {

/// Disassembling identical `(code, constants, context)` twice — even through
/// two different `Disassembler` values over the same triple — yields
/// byte-identical text: the listing is a pure function of the triple.
pub proof fn lemma_disassembly_deterministic(
    d1: Disassembler,
    d2: Disassembler,
    r1: String,
    r2: String,
)
    requires
        d1.codev() == d2.codev(),
        d1.constsv() == d2.constsv(),
        d1.varsv() == d2.varsv(),
        r1@ == spec_disassemble(d1.codev(), d1.constsv(), d1.varsv()),
        r2@ == spec_disassemble(d2.codev(), d2.constsv(), d2.varsv()),
    ensures
        r1@ == r2@,
{
}

/// Compiling an expression never touches the scope table: expressions only
/// read slots, they never allocate them.
pub proof fn lemma_expression_vars(e: Expression, st: CState, globals: Seq<Seq<char>>)
    ensures
        spec_expression(e, st, globals) matches Ok(post) ==> post.vars == st.vars,
    decreases e,
{
    match e {
        Expression::Binary(op, left, right) => {
            lemma_expression_vars(*left, st, globals);
            match spec_expression(*left, st, globals) {
                Ok(st1) => {
                    lemma_expression_vars(*right, st1, globals);
                },
                Err(_) => {},
            }
        },
        _ => {},
    }
}

/// A `let` declaration binding the simple name `x` allocates exactly one new
/// slot for `x` — the next free index — and a subsequent read of `x`
/// compiles to `LOAD_CONTEXT` of exactly that slot.
pub proof fn lemma_let_binding_slot(
    name: String,
    init: Option<Expression>,
    st: CState,
    globals: Seq<Seq<char>>,
)
    requires
        spec_binding_pattern(BindingPattern::Identifier(name), init, st, globals) is Ok,
    ensures
        ({
            let post = spec_binding_pattern(
                BindingPattern::Identifier(name),
                init,
                st,
                globals,
            )->Ok_0;
            post.vars.len() == st.vars.len() + 1 && post.vars[st.vars.len() as int] == name@
                && var_lookup(post.vars, name@) == Some(st.vars.len() as int) && spec_expression(
                Expression::Identifier(name),
                post,
                globals,
            ) == Ok::<CState, CompileError>(
                emit2(post, OP_LOAD_CONTEXT, st.vars.len() as usize),
            )
        }),
{
    let idx = st.vars.len() as usize;
    let st1 = CState { vars: st.vars.push(name@), ..st };
    match init {
        None => {},
        Some(e) => {
            lemma_expression_vars(e, st1, globals);
        },
    }
    let post = spec_binding_pattern(BindingPattern::Identifier(name), init, st, globals)->Ok_0;
    assert(post.vars == st.vars.push(name@));
    assert(post.vars.last() == name@);
    assert(var_lookup(post.vars, name@) == Some(st.vars.len() as int));
}

/// The number of `Boolean` entries in a constant pool.
pub open spec fn count_bools(cs: Seq<ConstV>) -> int
    decreases cs.len(),
{
    if cs.len() == 0 {
        0int
    } else {
        count_bools(cs.drop_last()) + (if cs.last() is Boolean {
            1int
        } else {
            0int
        })
    }
}

/// Would the dedup scans identify these two pool entries: two `Number`s
/// that are numerically equal, or two `Str`s with the same text? `Boolean`
/// entries never match anything.
pub open spec fn pool_match(a: ConstV, b: ConstV) -> bool {
    (a matches ConstV::Number(x) && b matches ConstV::Number(y) && num_eq(x, y)) || (a is Str
        && a == b)
}

/// No two entries match under the dedup scans: `Number`s are deduplicated by
/// numeric equality (NaN entries may repeat — a NaN equals nothing — and at
/// most one of the two zero patterns is pooled), `Str`s by exact text;
/// `Boolean`s are never deduplicated.
pub open spec fn deduped(cs: Seq<ConstV>) -> bool {
    forall|i: int, j: int| 0 <= i < j < cs.len() ==> !pool_match(cs[i], cs[j])
}

pub proof fn lemma_count_bools_push(cs: Seq<ConstV>, c: ConstV)
    ensures
        count_bools(cs.push(c)) == count_bools(cs) + (if c is Boolean {
            1int
        } else {
            0int
        }),
{
    assert(cs.push(c).drop_last() =~= cs);
}

pub proof fn lemma_deduped_push(cs: Seq<ConstV>, c: ConstV)
    requires
        deduped(cs),
        forall|j: int| 0 <= j < cs.len() ==> !pool_match(cs[j], c),
    ensures
        deduped(cs.push(c)),
{
    assert forall|i: int, j: int| 0 <= i < j < cs.push(c).len() implies !pool_match(
        cs.push(c)[i],
        cs.push(c)[j],
    ) by {
        assert(cs.push(c)[i] == cs[i]);
        if j < cs.len() {
            assert(cs.push(c)[j] == cs[j]);
        } else {
            assert(cs.push(c)[j] == c);
        }
    }
}

/// The number of boolean literals an expression compiles.
pub open spec fn bool_lits_expr(e: Expression) -> int
    decreases e,
{
    match e {
        Expression::BooleanLiteral(_) => 1int,
        Expression::Binary(_, left, right) => bool_lits_expr(*left) + bool_lits_expr(*right),
        _ => 0int,
    }
}

/// The number of boolean literals one run of an initializer compiles.
pub open spec fn bool_lits_init(init: Option<Expression>) -> int {
    match init {
        None => 0int,
        Some(e) => bool_lits_expr(e),
    }
}

/// The number of boolean literals a binding pattern compiles — the
/// initializer is re-supplied once per bound name.
pub open spec fn bool_lits_pattern(p: BindingPattern, init: Option<Expression>) -> int
    decreases p, 0int,
{
    match p {
        BindingPattern::Identifier(_) => bool_lits_init(init),
        BindingPattern::Array(elems) => bool_lits_array(elems@, 0, init),
        BindingPattern::Object(keys) => bool_lits_object(keys@, 0, init),
        BindingPattern::Assignment => 0int,
    }
}

pub open spec fn bool_lits_array(
    elems: Seq<Option<BindingPattern>>,
    i: int,
    init: Option<Expression>,
) -> int
    decreases elems, elems.len() - i,
{
    if i < 0 || i >= elems.len() {
        0int
    } else {
        (match elems[i] {
            None => 0int,
            Some(p) => bool_lits_pattern(p, init),
        }) + bool_lits_array(elems, i + 1, init)
    }
}

pub open spec fn bool_lits_object(keys: Seq<PropertyKey>, i: int, init: Option<Expression>) -> int
    decreases keys.len() - i,
{
    if i < 0 || i >= keys.len() {
        0int
    } else {
        (match keys[i] {
            PropertyKey::Identifier(_) => bool_lits_init(init),
            _ => 0int,
        }) + bool_lits_object(keys, i + 1, init)
    }
}

pub open spec fn bool_lits_declarators(ds: Seq<Declarator>, i: int) -> int
    decreases ds.len() - i,
{
    if i < 0 || i >= ds.len() {
        0int
    } else {
        bool_lits_pattern(ds[i].id, ds[i].init) + bool_lits_declarators(ds, i + 1)
    }
}

pub open spec fn bool_lits_declaration(d: Declaration) -> int {
    match d {
        Declaration::Variable(kind, ds) => if kind is Let {
            bool_lits_declarators(ds@, 0)
        } else {
            0int
        },
        Declaration::Unsupported => 0int,
    }
}

pub open spec fn bool_lits_stmt(s: Statement) -> int
    decreases s, 0int,
{
    match s {
        Statement::Expression(e) => bool_lits_expr(e),
        Statement::Declaration(d) => bool_lits_declaration(d),
        Statement::If(test, consequent, alternate) => bool_lits_expr(test) + bool_lits_stmt(
            *consequent,
        ) + (match alternate {
            None => 0int,
            Some(a) => bool_lits_stmt(*a),
        }),
        Statement::Empty => 0int,
        Statement::Block(body) => bool_lits_stmts(body@, 0),
        Statement::Unsupported => 0int,
    }
}

pub open spec fn bool_lits_stmts(ss: Seq<Statement>, i: int) -> int
    decreases ss, ss.len() - i,
{
    if i < 0 || i >= ss.len() {
        0int
    } else {
        bool_lits_stmt(ss[i]) + bool_lits_stmts(ss, i + 1)
    }
}

/// The number of boolean literals a program compiles.
pub open spec fn bool_lits_program(p: Program) -> int {
    bool_lits_stmts(p.body@, 0)
}

/// The pool-accounting claim for one compilation step from `st` to `post`
/// compiling something with `lits` boolean literals.
pub open spec fn pool_claim(st: CState, post: CState, lits: int) -> bool {
    count_bools(post.consts) == count_bools(st.consts) + lits && (deduped(st.consts) ==> deduped(
        post.consts,
    ))
}

pub proof fn lemma_pool_expression(e: Expression, st: CState, globals: Seq<Seq<char>>)
    ensures
        spec_expression(e, st, globals) matches Ok(post) ==> pool_claim(st, post, bool_lits_expr(e)),
    decreases e,
{
    match e {
        Expression::NumericLiteral(bits) => {
            match num_index(st.consts, bits) {
                Some(_) => {},
                None => {
                    lemma_num_index(st.consts, bits);
                    lemma_count_bools_push(st.consts, ConstV::Number(bits));
                    if deduped(st.consts) {
                        assert forall|j: int| 0 <= j < st.consts.len() implies !pool_match(
                            st.consts[j],
                            ConstV::Number(bits),
                        ) by {
                            assert(!num_match(st.consts[j], bits));
                        }
                        lemma_deduped_push(st.consts, ConstV::Number(bits));
                    }
                },
            }
        },
        Expression::BooleanLiteral(b) => {
            lemma_count_bools_push(st.consts, ConstV::Boolean(b));
            if deduped(st.consts) {
                assert forall|j: int| 0 <= j < st.consts.len() implies !pool_match(
                    st.consts[j],
                    ConstV::Boolean(b),
                ) by {}
                lemma_deduped_push(st.consts, ConstV::Boolean(b));
            }
        },
        Expression::StringLiteral(text) => {
            match str_index(st.consts, text@) {
                Some(_) => {},
                None => {
                    lemma_str_index(st.consts, text@);
                    lemma_count_bools_push(st.consts, ConstV::Str(text@));
                    if deduped(st.consts) {
                        assert forall|j: int| 0 <= j < st.consts.len() implies !pool_match(
                            st.consts[j],
                            ConstV::Str(text@),
                        ) by {
                            assert(st.consts[j] != ConstV::Str(text@));
                        }
                        lemma_deduped_push(st.consts, ConstV::Str(text@));
                    }
                },
            }
        },
        Expression::Binary(op, left, right) => {
            lemma_pool_expression(*left, st, globals);
            match spec_expression(*left, st, globals) {
                Ok(st1) => {
                    lemma_pool_expression(*right, st1, globals);
                },
                Err(_) => {},
            }
        },
        Expression::Identifier(_) => {},
        Expression::Unsupported => {},
    }
}

pub proof fn lemma_pool_declarator_init(
    init: Option<Expression>,
    idx: usize,
    st: CState,
    globals: Seq<Seq<char>>,
)
    ensures
        spec_declarator_init(init, idx, st, globals) matches Ok(post) ==> pool_claim(
            st,
            post,
            bool_lits_init(init),
        ),
{
    match init {
        None => {},
        Some(e) => {
            lemma_pool_expression(e, st, globals);
        },
    }
}

pub proof fn lemma_pool_object_pattern(
    keys: Seq<PropertyKey>,
    i: int,
    init: Option<Expression>,
    st: CState,
    globals: Seq<Seq<char>>,
)
    ensures
        spec_object_pattern(keys, i, init, st, globals) matches Ok(post) ==> pool_claim(
            st,
            post,
            bool_lits_object(keys, i, init),
        ),
    decreases keys.len() - i,
{
    if i < 0 || i >= keys.len() {
    } else {
        match keys[i] {
            PropertyKey::Identifier(name) => {
                let idx = st.vars.len() as usize;
                let st1 = CState { vars: st.vars.push(name@), ..st };
                lemma_pool_declarator_init(init, idx, st1, globals);
                match spec_declarator_init(init, idx, st1, globals) {
                    Ok(st2) => {
                        lemma_pool_object_pattern(keys, i + 1, init, st2, globals);
                    },
                    Err(_) => {},
                }
            },
            _ => {},
        }
    }
}

pub proof fn lemma_pool_binding_pattern(
    p: BindingPattern,
    init: Option<Expression>,
    st: CState,
    globals: Seq<Seq<char>>,
)
    ensures
        spec_binding_pattern(p, init, st, globals) matches Ok(post) ==> pool_claim(
            st,
            post,
            bool_lits_pattern(p, init),
        ),
    decreases p, 0int,
{
    match p {
        BindingPattern::Identifier(name) => {
            let idx = st.vars.len() as usize;
            let st1 = CState { vars: st.vars.push(name@), ..st };
            lemma_pool_declarator_init(init, idx, st1, globals);
        },
        BindingPattern::Array(elems) => {
            lemma_pool_array_pattern(elems@, 0, init, st, globals);
        },
        BindingPattern::Object(keys) => {
            lemma_pool_object_pattern(keys@, 0, init, st, globals);
        },
        BindingPattern::Assignment => {},
    }
}

pub proof fn lemma_pool_array_pattern(
    elems: Seq<Option<BindingPattern>>,
    i: int,
    init: Option<Expression>,
    st: CState,
    globals: Seq<Seq<char>>,
)
    ensures
        spec_array_pattern(elems, i, init, st, globals) matches Ok(post) ==> pool_claim(
            st,
            post,
            bool_lits_array(elems, i, init),
        ),
    decreases elems, elems.len() - i,
{
    if i < 0 || i >= elems.len() {
    } else {
        match elems[i] {
            None => {
                lemma_pool_array_pattern(elems, i + 1, init, st, globals);
            },
            Some(p) => {
                lemma_pool_binding_pattern(p, init, st, globals);
                match spec_binding_pattern(p, init, st, globals) {
                    Ok(st1) => {
                        lemma_pool_array_pattern(elems, i + 1, init, st1, globals);
                    },
                    Err(_) => {},
                }
            },
        }
    }
}

pub proof fn lemma_pool_declarators(
    ds: Seq<Declarator>,
    i: int,
    st: CState,
    globals: Seq<Seq<char>>,
)
    ensures
        spec_declarators(ds, i, st, globals) matches Ok(post) ==> pool_claim(
            st,
            post,
            bool_lits_declarators(ds, i),
        ),
    decreases ds.len() - i,
{
    if i < 0 || i >= ds.len() {
    } else {
        lemma_pool_binding_pattern(ds[i].id, ds[i].init, st, globals);
        match spec_binding_pattern(ds[i].id, ds[i].init, st, globals) {
            Ok(st1) => {
                lemma_pool_declarators(ds, i + 1, st1, globals);
            },
            Err(_) => {},
        }
    }
}

pub proof fn lemma_pool_declaration(d: Declaration, st: CState, globals: Seq<Seq<char>>)
    ensures
        spec_declaration(d, st, globals) matches Ok(post) ==> pool_claim(
            st,
            post,
            bool_lits_declaration(d),
        ),
{
    match d {
        Declaration::Variable(kind, ds) => match kind {
            VariableDeclarationKind::Let => {
                lemma_pool_declarators(ds@, 0, st, globals);
            },
            _ => {},
        },
        Declaration::Unsupported => {},
    }
}

pub proof fn lemma_pool_statement(s: Statement, st: CState, globals: Seq<Seq<char>>)
    ensures
        spec_statement(s, st, globals) matches Ok(post) ==> pool_claim(st, post, bool_lits_stmt(s)),
    decreases s, 1int,
{
    match s {
        Statement::Expression(e) => {
            lemma_pool_expression(e, st, globals);
        },
        Statement::Declaration(d) => {
            lemma_pool_declaration(d, st, globals);
        },
        Statement::If(test, consequent, alternate) => {
            lemma_pool_expression(test, st, globals);
            match spec_expression(test, st, globals) {
                Err(_) => {},
                Ok(st1) => {
                    let st2 = emit2(st1, OP_JUMP_IF_FALSE, 0);
                    lemma_pool_statement(*consequent, st2, globals);
                    match spec_statement(*consequent, st2, globals) {
                        Err(_) => {},
                        Ok(st3) => {
                            let st4 = emit2(st3, OP_JUMP, 0);
                            let st5 = patch(
                                st4,
                                st1.code.len() as int + 1,
                                st4.code.len() as usize,
                            );
                            match alternate {
                                None => {},
                                Some(a) => {
                                    lemma_pool_statement(*a, st5, globals);
                                },
                            }
                        },
                    }
                },
            }
        },
        Statement::Empty => {},
        Statement::Block(body) => {
            lemma_pool_statements(body@, 0, st, globals);
        },
        Statement::Unsupported => {},
    }
}

pub proof fn lemma_pool_statements(ss: Seq<Statement>, i: int, st: CState, globals: Seq<Seq<char>>)
    ensures
        spec_statements(ss, i, st, globals) matches Ok(post) ==> pool_claim(
            st,
            post,
            bool_lits_stmts(ss, i),
        ),
    decreases ss, ss.len() - i,
{
    if i < 0 || i >= ss.len() {
    } else {
        lemma_pool_statement(ss[i], st, globals);
        match spec_statement(ss[i], st, globals) {
            Ok(st1) => {
                lemma_pool_statements(ss, i + 1, st1, globals);
            },
            Err(_) => {},
        }
    }
}

/// Constant-pool accounting over a whole successful compile: the count of
/// `Boolean` pool entries grows by exactly the number of boolean-literal
/// occurrences compiled (booleans are never deduplicated), and `Number` and
/// `Str` entries are deduplicated within their tag — numbers by IEEE numeric
/// equality, strings by exact text: starting from a duplicate-free pool, no
/// two entries the dedup scans would identify are ever both present.
pub proof fn lemma_constant_pool(p: Program, st: CState, globals: Seq<Seq<char>>)
    ensures
        spec_generate(p, st, globals) matches Ok(post) ==> pool_claim(
            st,
            post,
            bool_lits_program(p),
        ),
{
    lemma_pool_statements(p.body@, 0, st, globals);
}

/// For `if (cond) A else B`: the false-branch jump operand (right after the
/// `JUMP_IF_FALSE` that follows the compiled test) holds the index of the
/// first instruction after the consequent's trailing `JUMP` — the start of
/// the alternate, and exactly the join point when the alternate is absent —
/// and the trailing jump's operand holds the join point after both branches.
/// Targets are absolute code indices.
pub proof fn lemma_if_jump_targets(s: Statement, st: CState, globals: Seq<Seq<char>>)
    requires
        s is If,
        spec_statement(s, st, globals) is Ok,
    ensures
        ({
            let post = spec_statement(s, st, globals)->Ok_0;
            let st1 = spec_expression(s->If_0, st, globals)->Ok_0;
            let st2 = emit2(st1, OP_JUMP_IF_FALSE, 0);
            let st3 = spec_statement(*s->If_1, st2, globals)->Ok_0;
            post.code[st1.code.len() as int] == OP_JUMP_IF_FALSE && post.code[st1.code.len() as int
                + 1] == ((st3.code.len() + 2) as usize) && post.code[st3.code.len() as int]
                == OP_JUMP && post.code[st3.code.len() as int + 1] == (post.code.len() as usize) && (
            s->If_2 is None ==> st3.code.len() + 2 == post.code.len())
        }),
{
    match s {
        Statement::If(test, consequent, alternate) => {
            let st1 = spec_expression(test, st, globals)->Ok_0;
            let st2 = emit2(st1, OP_JUMP_IF_FALSE, 0);
            let st3 = spec_statement(*consequent, st2, globals)->Ok_0;
            let jif = st1.code.len() as int + 1;
            let jmp = st3.code.len() as int + 1;
            let st4 = emit2(st3, OP_JUMP, 0);
            let st5 = patch(st4, jif, st4.code.len() as usize);
            lemma_statement_extends(*consequent, st2, globals);
            assert(st3.code.len() >= st2.code.len());
            assert(st3.code[st1.code.len() as int]
                == st2.code.subrange(0, st2.code.len() as int)[st1.code.len() as int]);
            assert(st5.code[st1.code.len() as int] == OP_JUMP_IF_FALSE);
            assert(st5.code[jif] == (st4.code.len() as usize));
            assert(st5.code[st3.code.len() as int] == OP_JUMP);
            match alternate {
                None => {
                    let post = patch(st5, jmp, st5.code.len() as usize);
                    assert(post.code[jif] == ((st3.code.len() + 2) as usize));
                },
                Some(a) => {
                    lemma_statement_extends(*a, st5, globals);
                    let st6 = spec_statement(*a, st5, globals)->Ok_0;
                    assert(st6.code[st1.code.len() as int]
                        == st5.code.subrange(0, st5.code.len() as int)[st1.code.len() as int]);
                    assert(st6.code[jif]
                        == st5.code.subrange(0, st5.code.len() as int)[jif]);
                    assert(st6.code[st3.code.len() as int]
                        == st5.code.subrange(0, st5.code.len() as int)[st3.code.len() as int]);
                    let post = patch(st6, jmp, st6.code.len() as usize);
                    assert(post.code[jif] == ((st3.code.len() + 2) as usize));
                    assert(post.code[st1.code.len() as int] == OP_JUMP_IF_FALSE);
                    assert(post.code[st3.code.len() as int] == OP_JUMP);
                },
            }
        },
        _ => {},
    }
}

/// Walking `code[from..to)` by the opcode arity table: every operand of a
/// `JUMP` / `JUMP_IF_FALSE` instruction holds a strictly positive absolute
/// index of at most `bound` — in particular, never the placeholder 0.
pub open spec fn region_ok(code: Seq<usize>, from: int, to: int, bound: int) -> bool
    decreases to - from,
{
    if from >= to {
        from == to
    } else {
        let op = code[from];
        if has_operand(op) {
            from + 2 <= to && (is_jump(op) ==> 0 < code[from + 1] <= bound) && region_ok(
                code,
                from + 2,
                to,
                bound,
            )
        } else {
            region_ok(code, from + 1, to, bound)
        }
    }
}

pub proof fn lemma_prefix_index(a: Seq<usize>, b: Seq<usize>, k: int)
    requires
        a.is_prefix_of(b),
        0 <= k < a.len(),
    ensures
        b[k] == a[k],
{
    assert(a[k] == b.subrange(0, a.len() as int)[k]);
}

pub proof fn lemma_region_concat(code: Seq<usize>, a: int, b: int, c: int, bound: int)
    requires
        region_ok(code, a, b, bound),
        region_ok(code, b, c, bound),
    ensures
        region_ok(code, a, c, bound),
    decreases b - a,
{
    if a < b {
        if has_operand(code[a]) {
            lemma_region_concat(code, a + 2, b, c, bound);
        } else {
            lemma_region_concat(code, a + 1, b, c, bound);
        }
    }
}

pub proof fn lemma_region_weaken(code: Seq<usize>, from: int, to: int, bound: int, bound2: int)
    requires
        region_ok(code, from, to, bound),
        bound <= bound2,
    ensures
        region_ok(code, from, to, bound2),
    decreases to - from,
{
    if from < to {
        if has_operand(code[from]) {
            lemma_region_weaken(code, from + 2, to, bound, bound2);
        } else {
            lemma_region_weaken(code, from + 1, to, bound, bound2);
        }
    }
}

pub proof fn lemma_region_frame(a: Seq<usize>, b: Seq<usize>, from: int, to: int, bound: int)
    requires
        region_ok(a, from, to, bound),
        forall|k: int| from <= k < to ==> b[k] == a[k],
    ensures
        region_ok(b, from, to, bound),
    decreases to - from,
{
    if from < to {
        assert(b[from] == a[from]);
        if has_operand(a[from]) {
            assert(b[from + 1] == a[from + 1]);
            lemma_region_frame(a, b, from + 2, to, bound);
        } else {
            lemma_region_frame(a, b, from + 1, to, bound);
        }
    }
}

/// Carries a finished region of `mid` into the larger code of `post` and
/// joins it with the region compiled after it.
pub proof fn lemma_region_seq_step(st: CState, mid: CState, post: CState)
    requires
        region_ok(mid.code, st.code.len() as int, mid.code.len() as int, mid.code.len() as int),
        region_ok(post.code, mid.code.len() as int, post.code.len() as int, post.code.len() as int),
        extends(mid, post),
        st.code.len() <= mid.code.len(),
    ensures
        region_ok(post.code, st.code.len() as int, post.code.len() as int, post.code.len() as int),
{
    lemma_region_weaken(
        mid.code,
        st.code.len() as int,
        mid.code.len() as int,
        mid.code.len() as int,
        post.code.len() as int,
    );
    assert forall|k: int| st.code.len() <= k < mid.code.len() implies post.code[k]
        == mid.code[k] by {
        lemma_prefix_index(mid.code, post.code, k);
    }
    lemma_region_frame(
        mid.code,
        post.code,
        st.code.len() as int,
        mid.code.len() as int,
        post.code.len() as int,
    );
    lemma_region_concat(
        post.code,
        st.code.len() as int,
        mid.code.len() as int,
        post.code.len() as int,
        post.code.len() as int,
    );
}

/// The jump-patching claim for one compilation step: in the step's own
/// region of the final code, every jump operand is positive and in range.
pub open spec fn patched_claim(st: CState, r: Result<CState, CompileError>) -> bool {
    r matches Ok(post) ==> post.code.len() <= usize::MAX ==> region_ok(
        post.code,
        st.code.len() as int,
        post.code.len() as int,
        post.code.len() as int,
    )
}

/// A two-word instruction whose opcode is not a jump, appended at the end,
/// is a finished region of its own.
pub proof fn lemma_region_emit2_tail(st: CState, op: usize, operand: usize)
    requires
        has_operand(op),
        !is_jump(op),
    ensures
        region_ok(
            emit2(st, op, operand).code,
            st.code.len() as int,
            st.code.len() as int + 2,
            emit2(st, op, operand).code.len() as int,
        ),
{
    let code = emit2(st, op, operand).code;
    assert(code[st.code.len() as int] == op);
    assert(region_ok(code, st.code.len() as int + 2, st.code.len() as int + 2, code.len() as int));
}

pub proof fn lemma_region_expression(e: Expression, st: CState, globals: Seq<Seq<char>>)
    ensures
        patched_claim(st, spec_expression(e, st, globals)),
    decreases e,
{
    let n = st.code.len() as int;
    match e {
        Expression::NumericLiteral(bits) => {
            let pair = intern_num(st, bits);
            lemma_region_emit2_tail(pair.0, OP_CONST, pair.1 as usize);
        },
        Expression::BooleanLiteral(b) => {
            let st1 = CState { consts: st.consts.push(ConstV::Boolean(b)), ..st };
            lemma_region_emit2_tail(st1, OP_CONST, (st.consts.len() as int) as usize);
        },
        Expression::StringLiteral(text) => {
            let pair = intern_str(st, text@);
            lemma_region_emit2_tail(pair.0, OP_CONST, pair.1 as usize);
        },
        Expression::Binary(op, left, right) => {
            lemma_region_expression(*left, st, globals);
            lemma_expression_extends(*left, st, globals);
            match spec_expression(*left, st, globals) {
                Err(_) => {},
                Ok(st1) => {
                    lemma_region_expression(*right, st1, globals);
                    lemma_expression_extends(*right, st1, globals);
                    match spec_expression(*right, st1, globals) {
                        Err(_) => {},
                        Ok(st2) => {
                            match binop_opcode(op) {
                                None => {},
                                Some(opc) => {
                                    let post = emit1(st2, opc);
                                    if post.code.len() <= usize::MAX {
                                        let n2 = st2.code.len() as int;
                                        assert(post.code[n2] == opc);
                                        assert(!has_operand(opc));
                                        assert(region_ok(post.code, n2 + 1, n2 + 1, post.code.len() as int));
                                        assert(region_ok(post.code, n2, n2 + 1, post.code.len() as int));
                                        lemma_extends_emit1(st2, opc);
                                        lemma_region_seq_step(st1, st2, post);
                                        lemma_region_seq_step(st, st1, post);
                                    }
                                },
                            }
                        },
                    }
                },
            }
        },
        Expression::Identifier(name) => {
            match var_lookup(st.vars, name@) {
                None => {},
                Some(i) => {
                    lemma_region_emit2_tail(st, OP_LOAD_CONTEXT, i as usize);
                },
            }
        },
        Expression::Unsupported => {},
    }
}

pub proof fn lemma_region_declarator_init(
    init: Option<Expression>,
    idx: usize,
    st: CState,
    globals: Seq<Seq<char>>,
)
    ensures
        patched_claim(st, spec_declarator_init(init, idx, st, globals)),
{
    match init {
        None => {},
        Some(e) => {
            lemma_region_expression(e, st, globals);
            lemma_expression_extends(e, st, globals);
            match spec_expression(e, st, globals) {
                Err(_) => {},
                Ok(st1) => {
                    let post = emit2(st1, OP_SET_CONTEXT, idx);
                    if post.code.len() <= usize::MAX {
                        lemma_region_emit2_tail(st1, OP_SET_CONTEXT, idx);
                        lemma_extends_emit2(st1, OP_SET_CONTEXT, idx);
                        lemma_region_seq_step(st, st1, post);
                    }
                },
            }
        },
    }
}

pub proof fn lemma_region_object_pattern(
    keys: Seq<PropertyKey>,
    i: int,
    init: Option<Expression>,
    st: CState,
    globals: Seq<Seq<char>>,
)
    ensures
        patched_claim(st, spec_object_pattern(keys, i, init, st, globals)),
    decreases keys.len() - i,
{
    if i < 0 || i >= keys.len() {
    } else {
        match keys[i] {
            PropertyKey::Identifier(name) => {
                let idx = st.vars.len() as usize;
                let st1 = CState { vars: st.vars.push(name@), ..st };
                lemma_region_declarator_init(init, idx, st1, globals);
                lemma_declarator_init_extends(init, idx, st1, globals);
                match spec_declarator_init(init, idx, st1, globals) {
                    Err(_) => {},
                    Ok(st2) => {
                        lemma_region_object_pattern(keys, i + 1, init, st2, globals);
                        lemma_object_pattern_extends(keys, i + 1, init, st2, globals);
                        match spec_object_pattern(keys, i + 1, init, st2, globals) {
                            Err(_) => {},
                            Ok(post) => {
                                if post.code.len() <= usize::MAX {
                                    lemma_region_seq_step(st, st2, post);
                                }
                            },
                        }
                    },
                }
            },
            _ => {},
        }
    }
}

pub proof fn lemma_region_binding_pattern(
    p: BindingPattern,
    init: Option<Expression>,
    st: CState,
    globals: Seq<Seq<char>>,
)
    ensures
        patched_claim(st, spec_binding_pattern(p, init, st, globals)),
    decreases p, 0int,
{
    match p {
        BindingPattern::Identifier(name) => {
            let idx = st.vars.len() as usize;
            let st1 = CState { vars: st.vars.push(name@), ..st };
            lemma_region_declarator_init(init, idx, st1, globals);
        },
        BindingPattern::Array(elems) => {
            lemma_region_array_pattern(elems@, 0, init, st, globals);
        },
        BindingPattern::Object(keys) => {
            lemma_region_object_pattern(keys@, 0, init, st, globals);
        },
        BindingPattern::Assignment => {},
    }
}

pub proof fn lemma_region_array_pattern(
    elems: Seq<Option<BindingPattern>>,
    i: int,
    init: Option<Expression>,
    st: CState,
    globals: Seq<Seq<char>>,
)
    ensures
        patched_claim(st, spec_array_pattern(elems, i, init, st, globals)),
    decreases elems, elems.len() - i,
{
    if i < 0 || i >= elems.len() {
    } else {
        match elems[i] {
            None => {
                lemma_region_array_pattern(elems, i + 1, init, st, globals);
            },
            Some(p) => {
                lemma_region_binding_pattern(p, init, st, globals);
                lemma_binding_pattern_extends(p, init, st, globals);
                match spec_binding_pattern(p, init, st, globals) {
                    Err(_) => {},
                    Ok(st1) => {
                        lemma_region_array_pattern(elems, i + 1, init, st1, globals);
                        lemma_array_pattern_extends(elems, i + 1, init, st1, globals);
                        match spec_array_pattern(elems, i + 1, init, st1, globals) {
                            Err(_) => {},
                            Ok(post) => {
                                if post.code.len() <= usize::MAX {
                                    lemma_region_seq_step(st, st1, post);
                                }
                            },
                        }
                    },
                }
            },
        }
    }
}

pub proof fn lemma_region_declarators(
    ds: Seq<Declarator>,
    i: int,
    st: CState,
    globals: Seq<Seq<char>>,
)
    ensures
        patched_claim(st, spec_declarators(ds, i, st, globals)),
    decreases ds.len() - i,
{
    if i < 0 || i >= ds.len() {
    } else {
        lemma_region_binding_pattern(ds[i].id, ds[i].init, st, globals);
        lemma_binding_pattern_extends(ds[i].id, ds[i].init, st, globals);
        match spec_binding_pattern(ds[i].id, ds[i].init, st, globals) {
            Err(_) => {},
            Ok(st1) => {
                lemma_region_declarators(ds, i + 1, st1, globals);
                lemma_declarators_extends(ds, i + 1, st1, globals);
                match spec_declarators(ds, i + 1, st1, globals) {
                    Err(_) => {},
                    Ok(post) => {
                        if post.code.len() <= usize::MAX {
                            lemma_region_seq_step(st, st1, post);
                        }
                    },
                }
            },
        }
    }
}

pub proof fn lemma_region_declaration(d: Declaration, st: CState, globals: Seq<Seq<char>>)
    ensures
        patched_claim(st, spec_declaration(d, st, globals)),
{
    match d {
        Declaration::Variable(kind, ds) => match kind {
            VariableDeclarationKind::Let => {
                lemma_region_declarators(ds@, 0, st, globals);
            },
            _ => {},
        },
        Declaration::Unsupported => {},
    }
}

pub proof fn lemma_region_statement(s: Statement, st: CState, globals: Seq<Seq<char>>)
    ensures
        patched_claim(st, spec_statement(s, st, globals)),
    decreases s, 1int,
{
    match s {
        Statement::Expression(e) => {
            lemma_region_expression(e, st, globals);
        },
        Statement::Declaration(d) => {
            lemma_region_declaration(d, st, globals);
        },
        Statement::If(test, consequent, alternate) => {
            lemma_region_if(test, *consequent, alternate, s, st, globals);
        },
        Statement::Empty => {
            let post = emit1(st, OP_HALT);
            let n = st.code.len() as int;
            assert(post.code[n] == OP_HALT);
            assert(region_ok(post.code, n + 1, n + 1, post.code.len() as int));
        },
        Statement::Block(body) => {
            lemma_region_statements(body@, 0, st, globals);
        },
        Statement::Unsupported => {},
    }
}

/// The backpatch case itself: both jump operands of an `if` are patched to
/// positive in-range targets, and the regions compiled inside keep their own
/// guarantees.
proof fn lemma_region_if(
    test: Expression,
    consequent: Statement,
    alternate: Option<Box<Statement>>,
    s: Statement,
    st: CState,
    globals: Seq<Seq<char>>,
)
    requires
        s == Statement::If(test, Box::new(consequent), alternate),
    ensures
        patched_claim(st, spec_statement(s, st, globals)),
    decreases s, 0int,
{
    let n = st.code.len() as int;
    lemma_region_expression(test, st, globals);
    lemma_expression_extends(test, st, globals);
    match spec_expression(test, st, globals) {
        Err(_) => {},
        Ok(st1) => {
            let n1 = st1.code.len() as int;
            let st2 = emit2(st1, OP_JUMP_IF_FALSE, 0);
            let n2 = n1 + 2;
            lemma_extends_emit2(st1, OP_JUMP_IF_FALSE, 0);
            lemma_region_statement(consequent, st2, globals);
            lemma_statement_extends(consequent, st2, globals);
            match spec_statement(consequent, st2, globals) {
                Err(_) => {},
                Ok(st3) => {
                    let n3 = st3.code.len() as int;
                    let st4 = emit2(st3, OP_JUMP, 0);
                    let n4 = n3 + 2;
                    lemma_extends_emit2(st3, OP_JUMP, 0);
                    let st5 = patch(st4, n1 + 1, st4.code.len() as usize);
                    let after_alternate = match alternate {
                        None => Ok(st5),
                        Some(a) => spec_statement(*a, st5, globals),
                    };
                    match alternate {
                        None => {
                            lemma_extends_refl(st5);
                        },
                        Some(a) => {
                            lemma_region_statement(*a, st5, globals);
                            lemma_statement_extends(*a, st5, globals);
                        },
                    }
                    match after_alternate {
                        Err(_) => {},
                        Ok(st6) => {
                            let n5 = st6.code.len() as int;
                            let post = patch(st6, n3 + 1, st6.code.len() as usize);
                            if post.code.len() <= usize::MAX {
                                // the final code, piece by piece
                                assert(n <= n1 && n2 <= n3 && n4 <= n5);
                                // words of the test region are untouched
                                assert forall|k: int| n <= k < n1 implies post.code[k]
                                    == st1.code[k] by {
                                    lemma_prefix_index(st2.code, st3.code, k);
                                    lemma_prefix_index(st5.code, st6.code, k);
                                }
                                // the JUMP_IF_FALSE instruction and its patched operand
                                assert(st2.code[n1] == OP_JUMP_IF_FALSE);
                                assert(st3.code[n1] == st2.code[n1]) by {
                                    lemma_prefix_index(st2.code, st3.code, n1);
                                }
                                assert(st6.code[n1] == st5.code[n1]) by {
                                    lemma_prefix_index(st5.code, st6.code, n1);
                                }
                                assert(post.code[n1] == OP_JUMP_IF_FALSE);
                                assert(st5.code[n1 + 1] == (n4 as usize));
                                assert(st6.code[n1 + 1] == st5.code[n1 + 1]) by {
                                    lemma_prefix_index(st5.code, st6.code, n1 + 1);
                                }
                                assert(post.code[n1 + 1] == (n4 as usize));
                                assert(0 < n4 <= n5);
                                assert((n4 as usize) as int == n4);
                                // words of the consequent region are untouched
                                assert forall|k: int| n2 <= k < n3 implies post.code[k]
                                    == st3.code[k] by {
                                    lemma_prefix_index(st5.code, st6.code, k);
                                }
                                // the JUMP instruction and its patched operand
                                assert(st4.code[n3] == OP_JUMP);
                                assert(st5.code[n3] == st4.code[n3]);
                                assert(st6.code[n3] == st5.code[n3]) by {
                                    lemma_prefix_index(st5.code, st6.code, n3);
                                }
                                assert(post.code[n3] == OP_JUMP);
                                assert(post.code[n3 + 1] == (n5 as usize));
                                assert(0 < n5 && (n5 as usize) as int == n5);
                                // words of the alternate region are untouched
                                assert forall|k: int| n4 <= k < n5 implies post.code[k]
                                    == st6.code[k] by {}
                                // each region, framed into the final code
                                lemma_region_weaken(st1.code, n, n1, n1, n5);
                                lemma_region_frame(st1.code, post.code, n, n1, n5);
                                assert(region_ok(post.code, n1, n2, n5)) by {
                                    assert(region_ok(post.code, n2, n2, n5));
                                }
                                lemma_region_weaken(st3.code, n2, n3, n3, n5);
                                lemma_region_frame(st3.code, post.code, n2, n3, n5);
                                assert(region_ok(post.code, n3, n4, n5)) by {
                                    assert(region_ok(post.code, n4, n4, n5));
                                }
                                match alternate {
                                    None => {
                                        assert(region_ok(post.code, n4, n5, n5));
                                    },
                                    Some(a) => {
                                        lemma_region_weaken(st6.code, n4, n5, n5, n5);
                                        lemma_region_frame(st6.code, post.code, n4, n5, n5);
                                    },
                                }
                                lemma_region_concat(post.code, n3, n4, n5, n5);
                                lemma_region_concat(post.code, n2, n3, n5, n5);
                                lemma_region_concat(post.code, n1, n2, n5, n5);
                                lemma_region_concat(post.code, n, n1, n5, n5);
                            }
                        },
                    }
                },
            }
        },
    }
}

pub proof fn lemma_region_statements(
    ss: Seq<Statement>,
    i: int,
    st: CState,
    globals: Seq<Seq<char>>,
)
    ensures
        patched_claim(st, spec_statements(ss, i, st, globals)),
    decreases ss, ss.len() - i,
{
    if i < 0 || i >= ss.len() {
    } else {
        lemma_region_statement(ss[i], st, globals);
        lemma_statement_extends(ss[i], st, globals);
        match spec_statement(ss[i], st, globals) {
            Err(_) => {},
            Ok(st1) => {
                lemma_region_statements(ss, i + 1, st1, globals);
                lemma_statements_extends(ss, i + 1, st1, globals);
                match spec_statements(ss, i + 1, st1, globals) {
                    Err(_) => {},
                    Ok(post) => {
                        if post.code.len() <= usize::MAX {
                            lemma_region_seq_step(st, st1, post);
                        }
                    },
                }
            },
        }
    }
}

/// After any successful compile, no jump operand slot remains at its
/// placeholder value: walking the whole emitted program by the opcode arity
/// table, every `JUMP` / `JUMP_IF_FALSE` operand holds a strictly positive
/// absolute index into the code, strictly below the terminating `HALT`'s own
/// index bound — in particular, never the placeholder 0.
pub proof fn lemma_no_placeholder_remains(p: Program, st: CState, globals: Seq<Seq<char>>)
    ensures
        spec_generate(p, st, globals) matches Ok(post) ==> post.code.len() <= usize::MAX
            ==> region_ok(
            post.code,
            st.code.len() as int,
            post.code.len() as int,
            post.code.len() as int - 1,
        ),
{
    lemma_region_statements(p.body@, 0, st, globals);
    lemma_statements_extends(p.body@, 0, st, globals);
    match spec_statements(p.body@, 0, st, globals) {
        Err(_) => {},
        Ok(st1) => {
            let post = emit1(st1, OP_HALT);
            if post.code.len() <= usize::MAX {
                let n = st.code.len() as int;
                let n1 = st1.code.len() as int;
                assert forall|k: int| n <= k < n1 implies post.code[k] == st1.code[k] by {}
                lemma_region_frame(st1.code, post.code, n, n1, n1);
                assert(post.code[n1] == OP_HALT);
                assert(region_ok(post.code, n1, n1 + 1, n1)) by {
                    assert(region_ok(post.code, n1 + 1, n1 + 1, n1));
                }
                lemma_region_concat(post.code, n, n1, n1 + 1, n1);
            }
        },
    }
}

/// Does this expression hold a node outside the supported subset (a call,
/// say), at a position the compiler would reach?
pub open spec fn has_unsupported_expr(e: Expression) -> bool
    decreases e,
{
    match e {
        Expression::Unsupported => true,
        Expression::Binary(_, left, right) => has_unsupported_expr(*left) || has_unsupported_expr(
            *right,
        ),
        _ => false,
    }
}

pub open spec fn init_has_unsupported_expr(init: Option<Expression>) -> bool {
    match init {
        None => false,
        Some(e) => has_unsupported_expr(e),
    }
}

/// A binding pattern re-supplies its initializer once per bound name, so the
/// initializer counts only where some name is actually bound (an empty
/// array or object pattern never runs it).
pub open spec fn pattern_has_unsupported_expr(p: BindingPattern, init: Option<Expression>) -> bool
    decreases p, 0int,
{
    match p {
        BindingPattern::Identifier(_) => init_has_unsupported_expr(init),
        BindingPattern::Array(elems) => array_has_unsupported_expr(elems@, 0, init),
        BindingPattern::Object(keys) => object_has_unsupported_expr(keys@, 0, init),
        BindingPattern::Assignment => false,
    }
}

pub open spec fn array_has_unsupported_expr(
    elems: Seq<Option<BindingPattern>>,
    i: int,
    init: Option<Expression>,
) -> bool
    decreases elems, elems.len() - i,
{
    if i < 0 || i >= elems.len() {
        false
    } else {
        (match elems[i] {
            None => false,
            Some(p) => pattern_has_unsupported_expr(p, init),
        }) || array_has_unsupported_expr(elems, i + 1, init)
    }
}

pub open spec fn object_has_unsupported_expr(
    keys: Seq<PropertyKey>,
    i: int,
    init: Option<Expression>,
) -> bool
    decreases keys.len() - i,
{
    if i < 0 || i >= keys.len() {
        false
    } else {
        (match keys[i] {
            PropertyKey::Identifier(_) => init_has_unsupported_expr(init),
            _ => false,
        }) || object_has_unsupported_expr(keys, i + 1, init)
    }
}

pub open spec fn declarators_have_unsupported_expr(ds: Seq<Declarator>, i: int) -> bool
    decreases ds.len() - i,
{
    if i < 0 || i >= ds.len() {
        false
    } else {
        pattern_has_unsupported_expr(ds[i].id, ds[i].init) || declarators_have_unsupported_expr(
            ds,
            i + 1,
        )
    }
}

pub open spec fn declaration_has_unsupported_expr(d: Declaration) -> bool {
    match d {
        Declaration::Variable(kind, ds) => kind is Let && declarators_have_unsupported_expr(ds@, 0),
        Declaration::Unsupported => false,
    }
}

pub open spec fn statement_has_unsupported_expr(s: Statement) -> bool
    decreases s, 0int,
{
    match s {
        Statement::Expression(e) => has_unsupported_expr(e),
        Statement::Declaration(d) => declaration_has_unsupported_expr(d),
        Statement::If(test, consequent, alternate) => has_unsupported_expr(test)
            || statement_has_unsupported_expr(*consequent) || (match alternate {
            None => false,
            Some(a) => statement_has_unsupported_expr(*a),
        }),
        Statement::Empty => false,
        Statement::Block(body) => statements_have_unsupported_expr(body@, 0),
        Statement::Unsupported => false,
    }
}

pub open spec fn statements_have_unsupported_expr(ss: Seq<Statement>, i: int) -> bool
    decreases ss, ss.len() - i,
{
    if i < 0 || i >= ss.len() {
        false
    } else {
        statement_has_unsupported_expr(ss[i]) || statements_have_unsupported_expr(ss, i + 1)
    }
}

pub open spec fn program_has_unsupported_expr(p: Program) -> bool {
    statements_have_unsupported_expr(p.body@, 0)
}

pub proof fn lemma_abort_expression(e: Expression, st: CState, globals: Seq<Seq<char>>)
    ensures
        has_unsupported_expr(e) ==> spec_expression(e, st, globals) is Err,
    decreases e,
{
    match e {
        Expression::Binary(op, left, right) => {
            lemma_abort_expression(*left, st, globals);
            match spec_expression(*left, st, globals) {
                Err(_) => {},
                Ok(st1) => {
                    lemma_abort_expression(*right, st1, globals);
                },
            }
        },
        _ => {},
    }
}

pub proof fn lemma_abort_declarator_init(
    init: Option<Expression>,
    idx: usize,
    st: CState,
    globals: Seq<Seq<char>>,
)
    ensures
        init_has_unsupported_expr(init) ==> spec_declarator_init(init, idx, st, globals) is Err,
{
    match init {
        None => {},
        Some(e) => {
            lemma_abort_expression(e, st, globals);
        },
    }
}

pub proof fn lemma_abort_object_pattern(
    keys: Seq<PropertyKey>,
    i: int,
    init: Option<Expression>,
    st: CState,
    globals: Seq<Seq<char>>,
)
    ensures
        object_has_unsupported_expr(keys, i, init) ==> spec_object_pattern(
            keys,
            i,
            init,
            st,
            globals,
        ) is Err,
    decreases keys.len() - i,
{
    if i < 0 || i >= keys.len() {
    } else {
        match keys[i] {
            PropertyKey::Identifier(name) => {
                let idx = st.vars.len() as usize;
                let st1 = CState { vars: st.vars.push(name@), ..st };
                lemma_abort_declarator_init(init, idx, st1, globals);
                match spec_declarator_init(init, idx, st1, globals) {
                    Err(_) => {},
                    Ok(st2) => {
                        lemma_abort_object_pattern(keys, i + 1, init, st2, globals);
                    },
                }
            },
            _ => {},
        }
    }
}

pub proof fn lemma_abort_binding_pattern(
    p: BindingPattern,
    init: Option<Expression>,
    st: CState,
    globals: Seq<Seq<char>>,
)
    ensures
        pattern_has_unsupported_expr(p, init) ==> spec_binding_pattern(p, init, st, globals) is Err,
    decreases p, 0int,
{
    match p {
        BindingPattern::Identifier(name) => {
            let idx = st.vars.len() as usize;
            let st1 = CState { vars: st.vars.push(name@), ..st };
            lemma_abort_declarator_init(init, idx, st1, globals);
        },
        BindingPattern::Array(elems) => {
            lemma_abort_array_pattern(elems@, 0, init, st, globals);
        },
        BindingPattern::Object(keys) => {
            lemma_abort_object_pattern(keys@, 0, init, st, globals);
        },
        BindingPattern::Assignment => {},
    }
}

pub proof fn lemma_abort_array_pattern(
    elems: Seq<Option<BindingPattern>>,
    i: int,
    init: Option<Expression>,
    st: CState,
    globals: Seq<Seq<char>>,
)
    ensures
        array_has_unsupported_expr(elems, i, init) ==> spec_array_pattern(
            elems,
            i,
            init,
            st,
            globals,
        ) is Err,
    decreases elems, elems.len() - i,
{
    if i < 0 || i >= elems.len() {
    } else {
        match elems[i] {
            None => {
                lemma_abort_array_pattern(elems, i + 1, init, st, globals);
            },
            Some(p) => {
                lemma_abort_binding_pattern(p, init, st, globals);
                match spec_binding_pattern(p, init, st, globals) {
                    Err(_) => {},
                    Ok(st1) => {
                        lemma_abort_array_pattern(elems, i + 1, init, st1, globals);
                    },
                }
            },
        }
    }
}

pub proof fn lemma_abort_declarators(
    ds: Seq<Declarator>,
    i: int,
    st: CState,
    globals: Seq<Seq<char>>,
)
    ensures
        declarators_have_unsupported_expr(ds, i) ==> spec_declarators(ds, i, st, globals) is Err,
    decreases ds.len() - i,
{
    if i < 0 || i >= ds.len() {
    } else {
        lemma_abort_binding_pattern(ds[i].id, ds[i].init, st, globals);
        match spec_binding_pattern(ds[i].id, ds[i].init, st, globals) {
            Err(_) => {},
            Ok(st1) => {
                lemma_abort_declarators(ds, i + 1, st1, globals);
            },
        }
    }
}

pub proof fn lemma_abort_declaration(d: Declaration, st: CState, globals: Seq<Seq<char>>)
    ensures
        declaration_has_unsupported_expr(d) ==> spec_declaration(d, st, globals) is Err,
{
    match d {
        Declaration::Variable(kind, ds) => match kind {
            VariableDeclarationKind::Let => {
                lemma_abort_declarators(ds@, 0, st, globals);
            },
            _ => {},
        },
        Declaration::Unsupported => {},
    }
}

pub proof fn lemma_abort_statement(s: Statement, st: CState, globals: Seq<Seq<char>>)
    ensures
        statement_has_unsupported_expr(s) ==> spec_statement(s, st, globals) is Err,
    decreases s, 1int,
{
    match s {
        Statement::Expression(e) => {
            lemma_abort_expression(e, st, globals);
        },
        Statement::Declaration(d) => {
            lemma_abort_declaration(d, st, globals);
        },
        Statement::If(test, consequent, alternate) => {
            lemma_abort_expression(test, st, globals);
            match spec_expression(test, st, globals) {
                Err(_) => {},
                Ok(st1) => {
                    let st2 = emit2(st1, OP_JUMP_IF_FALSE, 0);
                    lemma_abort_statement(*consequent, st2, globals);
                    match spec_statement(*consequent, st2, globals) {
                        Err(_) => {},
                        Ok(st3) => {
                            let st4 = emit2(st3, OP_JUMP, 0);
                            let st5 = patch(
                                st4,
                                st1.code.len() as int + 1,
                                st4.code.len() as usize,
                            );
                            match alternate {
                                None => {},
                                Some(a) => {
                                    lemma_abort_statement(*a, st5, globals);
                                },
                            }
                        },
                    }
                },
            }
        },
        Statement::Empty => {},
        Statement::Block(body) => {
            lemma_abort_statements(body@, 0, st, globals);
        },
        Statement::Unsupported => {},
    }
}

pub proof fn lemma_abort_statements(ss: Seq<Statement>, i: int, st: CState, globals: Seq<Seq<char>>)
    ensures
        statements_have_unsupported_expr(ss, i) ==> spec_statements(ss, i, st, globals) is Err,
    decreases ss, ss.len() - i,
{
    if i < 0 || i >= ss.len() {
    } else {
        lemma_abort_statement(ss[i], st, globals);
        match spec_statement(ss[i], st, globals) {
            Err(_) => {},
            Ok(st1) => {
                lemma_abort_statements(ss, i + 1, st1, globals);
            },
        }
    }
}

/// A program holding an expression outside the supported subset — a function
/// call, say — at any position compilation would reach, never compiles: the
/// result is an error and no bytecode program at all is produced. (The error
/// kind is `UnsupportedExpression` when that expression is the first
/// construct the compiler rejects; a construct rejected earlier reports its
/// own kind, and either way nothing is emitted.)
pub proof fn lemma_unsupported_expression_aborts(p: Program, st: CState, globals: Seq<Seq<char>>)
    ensures
        program_has_unsupported_expr(p) ==> spec_generate(p, st, globals) is Err,
{
    lemma_abort_statements(p.body@, 0, st, globals);
}

} // verus!
