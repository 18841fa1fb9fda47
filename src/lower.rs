//! Lowering of functions and programs into Aleo instruction text.
//!
//! The spec functions below say what text a construct lowers to, threading
//! a [`Lowering`] state (the text written so far and the register log) in
//! source order. The executable lowerers are proved to agree with them.

use vstd::prelude::*;

use crate::ast::{
    BinaryOp, Expr, Function, Module, Param, Pattern, Signedness, Statement, TypeAnnotation,
    Visibility,
};
use crate::error::{ConstraintShape, LowerError, ProgramError};
use crate::registry::{last_index, Registry};
use crate::text::{
    decimal, function_header, push_char, push_decimal, push_new_line, register_name,
    to_aleo_function_definition, to_aleo_register,
};

verus! {

/// The state that lowering threads through a function: the text written so
/// far and the names that registers `0, 1, ...` were allocated for.
pub struct Lowering {
    pub text: Seq<char>,
    pub log: Seq<Option<Seq<char>>>,
}

pub open spec fn result_view(r: Result<String, LowerError>) -> Result<Seq<char>, LowerError> {
    match r {
        Ok(s) => Ok(s@),
        Err(e) => Err(e),
    }
}

/// The target type of a source type annotation.
pub open spec fn type_text(t: TypeAnnotation) -> Result<Seq<char>, LowerError> {
    match t {
        TypeAnnotation::FieldElement => Ok("field"@),
        TypeAnnotation::Integer(Signedness::Signed, n) => Ok(seq!['i'] + decimal(n as nat)),
        TypeAnnotation::Integer(Signedness::Unsigned, n) => Ok(seq!['u'] + decimal(n as nat)),
        TypeAnnotation::Other(k) => Err(LowerError::UnsupportedType(k)),
    }
}

pub open spec fn visibility_text(v: Visibility) -> Seq<char> {
    match v {
        Visibility::Public => "public"@,
        Visibility::Private => "private"@,
    }
}

/// The mnemonic of an infix operator used as a value.
pub open spec fn operator_text(op: BinaryOp) -> Seq<char> {
    match op {
        BinaryOp::Add => "add"@,
        BinaryOp::Subtract => "sub"@,
        BinaryOp::Multiply => "mul"@,
        BinaryOp::Divide => "div"@,
        BinaryOp::Equal => "is.eq"@,
        BinaryOp::NotEqual => "is.neq"@,
        BinaryOp::Less => "lt"@,
        BinaryOp::LessEqual => "lte"@,
        BinaryOp::Greater => "gt"@,
        BinaryOp::GreaterEqual => "gte"@,
        BinaryOp::And => "and"@,
        BinaryOp::Or => "or"@,
        BinaryOp::Xor => "xor"@,
        BinaryOp::ShiftRight => "shr"@,
        BinaryOp::ShiftLeft => "shl"@,
        BinaryOp::Modulo => "mod"@,
    }
}

/// The mnemonic of a constraint over an infix operator, if it has one.
pub open spec fn assert_text(op: BinaryOp) -> Option<Seq<char>> {
    match op {
        BinaryOp::Equal => Some("assert.eq"@),
        BinaryOp::NotEqual => Some("assert.neq"@),
        _ => None,
    }
}

pub open spec fn input_line(reg: nat, ty: Seq<char>, vis: Seq<char>) -> Seq<char> {
    "\tinput "@ + register_name(reg) + " as "@ + ty + "."@ + vis + ";\n"@
}

pub open spec fn output_line(reg: nat, ty: Seq<char>, vis: Seq<char>) -> Seq<char> {
    "\toutput "@ + register_name(reg) + " as "@ + ty + "."@ + vis + ";\n"@
}

pub open spec fn operation_line(op: BinaryOp, a: nat, b: nat, dest: nat) -> Seq<char> {
    "\t"@ + operator_text(op) + " "@ + register_name(a) + " "@ + register_name(b) + " into "@
        + register_name(dest) + ";\n"@
}

pub open spec fn assert_line(mnemonic: Seq<char>, a: nat, b: nat) -> Seq<char> {
    "\t"@ + mnemonic + " "@ + register_name(a) + " "@ + register_name(b) + ";\n"@
}

/// Lowers an expression: the state after it, and the register holding its value.
pub open spec fn lower_expr(e: Expr, st: Lowering) -> Result<(Lowering, nat), LowerError>
    decreases e,
{
    match e {
        Expr::Ident(name) => match last_index(st.log, Some(name@)) {
            Some(i) => Ok((st, i)),
            None => Err(LowerError::UnboundIdentifier(name)),
        },
        Expr::Infix(lhs, op, rhs) => match lower_expr(*lhs, st) {
            Err(err) => Err(err),
            Ok((st1, a)) => match lower_expr(*rhs, st1) {
                Err(err) => Err(err),
                Ok((st2, b)) => {
                    let dest = st2.log.len();
                    Ok(
                        (
                            Lowering {
                                text: st2.text + operation_line(op, a, b, dest),
                                log: st2.log.push(None),
                            },
                            dest,
                        ),
                    )
                },
            },
        },
        Expr::Other(k) => Err(LowerError::UnsupportedExpression(k)),
    }
}

/// The state that a failed lowering of `e` from `st` leaves: what its
/// operands wrote and allocated before the one that failed. A node that
/// fails writes no line and takes no register of its own.
pub open spec fn expr_failure(e: Expr, st: Lowering) -> Lowering
    decreases e,
{
    match e {
        Expr::Infix(lhs, _, rhs) => match lower_expr(*lhs, st) {
            Err(_) => expr_failure(*lhs, st),
            Ok((st1, _)) => expr_failure(*rhs, st1),
        },
        _ => st,
    }
}

/// How many registers an expression allocates: one per infix operation.
pub open spec fn infix_count(e: Expr) -> nat
    decreases e,
{
    match e {
        Expr::Infix(lhs, _, rhs) => 1 + infix_count(*lhs) + infix_count(*rhs),
        _ => 0,
    }
}

/// The outcome of an executable expression lowering, against the spec.
pub open spec fn expr_agrees(
    spec: Result<(Lowering, nat), LowerError>,
    r: Result<u32, LowerError>,
    text: Seq<char>,
    log: Seq<Option<Seq<char>>>,
) -> bool {
    match r {
        Ok(a) => spec == Ok::<(Lowering, nat), LowerError>((Lowering { text, log }, a as nat)),
        Err(e) => spec == Err::<(Lowering, nat), LowerError>(e),
    }
}

/// The outcome of an executable lowering step, against the spec.
pub open spec fn step_agrees(
    spec: Result<Lowering, LowerError>,
    r: Result<(), LowerError>,
    text: Seq<char>,
    log: Seq<Option<Seq<char>>>,
) -> bool {
    match r {
        Ok(_) => spec == Ok::<Lowering, LowerError>(Lowering { text, log }),
        Err(e) => spec == Err::<Lowering, LowerError>(e),
    }
}

/// The target type of a source type annotation.
pub fn to_aleo_type(unresolved_type: &TypeAnnotation) -> (r: Result<String, LowerError>)
    ensures
        result_view(r) == type_text(*unresolved_type),
{
    match unresolved_type {
        TypeAnnotation::FieldElement => {
            let mut s = String::new();
            s.append("field");
            Ok(s)
        },
        TypeAnnotation::Integer(signedness, num_bits) => {
            let mut s = String::new();
            match signedness {
                Signedness::Signed => push_char(&mut s, 'i'),
                Signedness::Unsigned => push_char(&mut s, 'u'),
            }
            push_decimal(&mut s, *num_bits);
            Ok(s)
        },
        TypeAnnotation::Other(kind) => Err(LowerError::UnsupportedType(*kind)),
    }
}

/// The target visibility of a source visibility.
pub fn to_aleo_visibility(visibility: Visibility) -> (r: String)
    ensures
        r@ == visibility_text(visibility),
{
    let mut s = String::new();
    match visibility {
        Visibility::Public => s.append("public"),
        Visibility::Private => s.append("private"),
    }
    s
}

/// The mnemonic of an infix operator used as a value.
pub fn to_aleo_operator(operator: BinaryOp) -> (r: &'static str)
    ensures
        r@ == operator_text(operator),
{
    match operator {
        BinaryOp::Add => "add",
        BinaryOp::Subtract => "sub",
        BinaryOp::Multiply => "mul",
        BinaryOp::Divide => "div",
        BinaryOp::Equal => "is.eq",
        BinaryOp::NotEqual => "is.neq",
        BinaryOp::Less => "lt",
        BinaryOp::LessEqual => "lte",
        BinaryOp::Greater => "gt",
        BinaryOp::GreaterEqual => "gte",
        BinaryOp::And => "and",
        BinaryOp::Or => "or",
        BinaryOp::Xor => "xor",
        BinaryOp::ShiftRight => "shr",
        BinaryOp::ShiftLeft => "shl",
        BinaryOp::Modulo => "mod",
    }
}

fn push_register(out: &mut String, n: u32)
    ensures
        final(out)@ == old(out)@ + register_name(n as nat),
{
    let r = to_aleo_register(n);
    out.append(r.as_str());
}

fn emit_operation_line(out: &mut String, op: BinaryOp, a: u32, b: u32, dest: u32)
    ensures
        final(out)@ == old(out)@ + operation_line(op, a as nat, b as nat, dest as nat),
{
    let mut line = String::new();
    line.append("\t");
    line.append(to_aleo_operator(op));
    line.append(" ");
    push_register(&mut line, a);
    line.append(" ");
    push_register(&mut line, b);
    line.append(" into ");
    push_register(&mut line, dest);
    line.append(";\n");
    assert(line@ =~= operation_line(op, a as nat, b as nat, dest as nat));
    out.append(line.as_str());
}

/// Lowers an expression: appends the instructions of its intermediate
/// values to `out` and returns the register that holds its value.
pub fn handle_expression(expression: &Expr, register_registry: &mut Registry, out: &mut String) -> (r:
    Result<u32, LowerError>)
    requires
        old(register_registry).wf(),
        old(register_registry)@.len() + infix_count(*expression) <= u32::MAX,
    ensures
        final(register_registry).wf(),
        expr_agrees(
            lower_expr(*expression, Lowering { text: old(out)@, log: old(register_registry)@ }),
            r,
            final(out)@,
            final(register_registry)@,
        ),
        r is Ok ==> final(register_registry)@.len() == old(register_registry)@.len()
            + infix_count(*expression),
        r is Err ==> (Lowering { text: final(out)@, log: final(register_registry)@ })
            == expr_failure(*expression, (Lowering { text: old(out)@, log: old(register_registry)@ })),
    decreases expression,
{
    match expression {
        Expr::Ident(name) => register_registry.resolve(name),
        Expr::Infix(lhs, op, rhs) => {
            let a = match handle_expression(lhs, register_registry, out) {
                Ok(a) => a,
                Err(e) => return Err(e),
            };
            let b = match handle_expression(rhs, register_registry, out) {
                Ok(b) => b,
                Err(e) => return Err(e),
            };
            let dest = register_registry.allocate(None);
            emit_operation_line(out, *op, a, b, dest);
            Ok(dest)
        },
        Expr::Other(kind) => Err(LowerError::UnsupportedExpression(*kind)),
    }
}

/// Lowers a statement.
pub open spec fn lower_statement(s: Statement, st: Lowering) -> Result<Lowering, LowerError> {
    match s {
        Statement::Constrain(e) => match e {
            Expr::Infix(lhs, op, rhs) => match assert_text(op) {
                None => Err(LowerError::UnsupportedConstraint(ConstraintShape::Operator(op))),
                Some(mnemonic) => match lower_expr(*lhs, st) {
                    Err(err) => Err(err),
                    Ok((st1, a)) => match lower_expr(*rhs, st1) {
                        Err(err) => Err(err),
                        Ok((st2, b)) => Ok(
                            Lowering { text: st2.text + assert_line(mnemonic, a, b), log: st2.log },
                        ),
                    },
                },
            },
            Expr::Ident(_) => Err(LowerError::UnsupportedConstraint(ConstraintShape::Identifier)),
            Expr::Other(k) => Err(LowerError::UnsupportedConstraint(ConstraintShape::Expression(k))),
        },
        Statement::Expression(e) => match lower_expr(e, st) {
            Err(err) => Err(err),
            Ok((st1, _)) => Ok(st1),
        },
        Statement::Other(k) => Err(LowerError::UnsupportedStatement(k)),
    }
}

/// The state that a failed lowering of `s` from `st` leaves. A statement
/// rejected for its shape leaves `st` as it was.
pub open spec fn statement_failure(s: Statement, st: Lowering) -> Lowering {
    match s {
        Statement::Constrain(Expr::Infix(lhs, op, rhs)) => if assert_text(op) is Some {
            expr_failure(Expr::Infix(lhs, op, rhs), st)
        } else {
            st
        },
        Statement::Expression(e) => expr_failure(e, st),
        _ => st,
    }
}

/// How many registers a statement allocates when it lowers.
pub open spec fn statement_allocations(s: Statement) -> nat {
    match s {
        Statement::Constrain(Expr::Infix(lhs, _, rhs)) => infix_count(*lhs) + infix_count(*rhs),
        Statement::Expression(e) => infix_count(e),
        _ => 0,
    }
}

pub open spec fn body_allocations(ss: Seq<Statement>) -> nat
    decreases ss.len(),
{
    if ss.len() == 0 {
        0
    } else {
        statement_allocations(ss[0]) + body_allocations(ss.skip(1))
    }
}

/// Every register of the function can be numbered by a `u32`.
pub open spec fn registers_fit(f: Function) -> bool {
    f.parameters@.len() + body_allocations(f.body@) <= u32::MAX
}

/// Lowers a parameter: one register bound to its name, and one `input` line.
pub open spec fn lower_param(p: Param, st: Lowering) -> Result<Lowering, LowerError> {
    match p.pattern {
        Pattern::Identifier(name) => match type_text(p.typ) {
            Err(err) => Err(err),
            Ok(ty) => Ok(
                Lowering {
                    text: st.text + input_line(st.log.len(), ty, visibility_text(p.visibility)),
                    log: st.log.push(Some(name@)),
                },
            ),
        },
        Pattern::Other(k) => Err(LowerError::UnsupportedPattern(k)),
    }
}

/// Lowers parameters in declaration order.
pub open spec fn lower_params(ps: Seq<Param>, st: Lowering) -> Result<Lowering, LowerError>
    decreases ps.len(),
{
    if ps.len() == 0 {
        Ok(st)
    } else {
        match lower_params(ps.drop_last(), st) {
            Err(err) => Err(err),
            Ok(st1) => lower_param(ps.last(), st1),
        }
    }
}

/// Lowers statements in source order.
pub open spec fn lower_statements(ss: Seq<Statement>, st: Lowering) -> Result<Lowering, LowerError>
    decreases ss.len(),
{
    if ss.len() == 0 {
        Ok(st)
    } else {
        match lower_statements(ss.drop_last(), st) {
            Err(err) => Err(err),
            Ok(st1) => lower_statement(ss.last(), st1),
        }
    }
}

/// The state before a function's parameters: its header written, no register.
pub open spec fn function_start(f: Function) -> Lowering {
    Lowering { text: function_header(f.name@).push('\n'), log: Seq::empty() }
}

/// The state after a function's parameters and body.
pub open spec fn lower_body(f: Function) -> Result<Lowering, LowerError> {
    match lower_params(f.parameters@, function_start(f)) {
        Err(err) => Err(err),
        Ok(st) => lower_statements(f.body@, st),
    }
}

/// The text of a function; its result is the last register allocated.
pub open spec fn lower_function(f: Function) -> Result<Seq<char>, LowerError> {
    match lower_body(f) {
        Err(err) => Err(err),
        Ok(st) => if st.log.len() == 0 {
            Err(LowerError::EmptyRegistry)
        } else {
            match type_text(f.return_type) {
                Err(err) => Err(err),
                Ok(ty) => Ok(
                    st.text + output_line(
                        (st.log.len() - 1) as nat,
                        ty,
                        visibility_text(f.return_visibility),
                    ),
                ),
            }
        },
    }
}

/// The text of functions in declaration order, or the first failure.
pub open spec fn lower_functions(fs: Seq<Function>) -> Result<Seq<char>, ProgramError>
    decreases fs.len(),
{
    if fs.len() == 0 {
        Ok(Seq::empty())
    } else {
        match lower_functions(fs.drop_last()) {
            Err(err) => Err(err),
            Ok(t) => match lower_function(fs.last()) {
                Err(err) => Err(ProgramError { function: fs.last().name, error: err }),
                Ok(ft) => Ok(t + ft),
            },
        }
    }
}

/// `program <name>.aleo;` and a blank line.
pub open spec fn program_header(name: Seq<char>) -> Seq<char> {
    "program "@ + name + ".aleo;"@ + seq!['\n', '\n']
}

/// The text of a program.
pub open spec fn lower_program(name: Seq<char>, fs: Seq<Function>) -> Result<Seq<char>, ProgramError> {
    match lower_functions(fs) {
        Err(err) => Err(err),
        Ok(t) => Ok(program_header(name) + t),
    }
}

pub open spec fn all_registers_fit(fs: Seq<Function>) -> bool {
    forall|i: int| 0 <= i < fs.len() ==> registers_fit(#[trigger] fs[i])
}

proof fn lemma_params_error_persists(ps: Seq<Param>, st: Lowering, j: int)
    requires
        0 <= j <= ps.len(),
        lower_params(ps.take(j), st) is Err,
    ensures
        lower_params(ps, st) == lower_params(ps.take(j), st),
    decreases ps.len() - j,
{
    if j == ps.len() {
        assert(ps.take(j) =~= ps);
    } else {
        assert(ps.take(j + 1).drop_last() =~= ps.take(j));
        lemma_params_error_persists(ps, st, j + 1);
    }
}

proof fn lemma_statements_error_persists(ss: Seq<Statement>, st: Lowering, j: int)
    requires
        0 <= j <= ss.len(),
        lower_statements(ss.take(j), st) is Err,
    ensures
        lower_statements(ss, st) == lower_statements(ss.take(j), st),
    decreases ss.len() - j,
{
    if j == ss.len() {
        assert(ss.take(j) =~= ss);
    } else {
        assert(ss.take(j + 1).drop_last() =~= ss.take(j));
        lemma_statements_error_persists(ss, st, j + 1);
    }
}

proof fn lemma_functions_error_persists(fs: Seq<Function>, j: int)
    requires
        0 <= j <= fs.len(),
        lower_functions(fs.take(j)) is Err,
    ensures
        lower_functions(fs) == lower_functions(fs.take(j)),
    decreases fs.len() - j,
{
    if j == fs.len() {
        assert(fs.take(j) =~= fs);
    } else {
        assert(fs.take(j + 1).drop_last() =~= fs.take(j));
        lemma_functions_error_persists(fs, j + 1);
    }
}

fn emit_assert_line(out: &mut String, mnemonic: &str, a: u32, b: u32)
    ensures
        final(out)@ == old(out)@ + assert_line(mnemonic@, a as nat, b as nat),
{
    let mut line = String::new();
    line.append("\t");
    line.append(mnemonic);
    line.append(" ");
    push_register(&mut line, a);
    line.append(" ");
    push_register(&mut line, b);
    line.append(";\n");
    assert(line@ =~= assert_line(mnemonic@, a as nat, b as nat));
    out.append(line.as_str());
}

fn emit_typed_line(out: &mut String, keyword: &str, reg: u32, ty: &String, vis: &String)
    ensures
        final(out)@ == old(out)@ + ("\t"@ + keyword@ + " "@ + register_name(reg as nat) + " as "@
            + ty@ + "."@ + vis@ + ";\n"@),
{
    let mut line = String::new();
    line.append("\t");
    line.append(keyword);
    line.append(" ");
    push_register(&mut line, reg);
    line.append(" as ");
    line.append(ty.as_str());
    line.append(".");
    line.append(vis.as_str());
    line.append(";\n");
    assert(line@ =~= "\t"@ + keyword@ + " "@ + register_name(reg as nat) + " as "@ + ty@ + "."@
        + vis@ + ";\n"@);
    out.append(line.as_str());
}

/// Lowers a statement, appending its lines to `out`.
pub fn to_aleo_operation_line(
    statement: &Statement,
    register_registry: &mut Registry,
    out: &mut String,
) -> (r: Result<(), LowerError>)
    requires
        old(register_registry).wf(),
        old(register_registry)@.len() + statement_allocations(*statement) <= u32::MAX,
    ensures
        final(register_registry).wf(),
        step_agrees(
            lower_statement(*statement, Lowering { text: old(out)@, log: old(register_registry)@ }),
            r,
            final(out)@,
            final(register_registry)@,
        ),
        r is Ok ==> final(register_registry)@.len() == old(register_registry)@.len()
            + statement_allocations(*statement),
        r is Err ==> (Lowering { text: final(out)@, log: final(register_registry)@ })
            == statement_failure(*statement, (Lowering { text: old(out)@, log: old(register_registry)@ })),
{
    match statement {
        Statement::Constrain(expression) => match expression {
            Expr::Infix(lhs, op, rhs) => {
                let mnemonic = match op {
                    BinaryOp::Equal => "assert.eq",
                    BinaryOp::NotEqual => "assert.neq",
                    _ => {
                        return Err(
                            LowerError::UnsupportedConstraint(ConstraintShape::Operator(*op)),
                        );
                    },
                };
                let a = match handle_expression(lhs, register_registry, out) {
                    Ok(a) => a,
                    Err(e) => return Err(e),
                };
                let b = match handle_expression(rhs, register_registry, out) {
                    Ok(b) => b,
                    Err(e) => return Err(e),
                };
                emit_assert_line(out, mnemonic, a, b);
                Ok(())
            },
            Expr::Ident(_) => Err(LowerError::UnsupportedConstraint(ConstraintShape::Identifier)),
            Expr::Other(kind) => Err(
                LowerError::UnsupportedConstraint(ConstraintShape::Expression(*kind)),
            ),
        },
        Statement::Expression(expression) => match handle_expression(
            expression,
            register_registry,
            out,
        ) {
            Ok(_) => Ok(()),
            Err(e) => Err(e),
        },
        Statement::Other(kind) => Err(LowerError::UnsupportedStatement(*kind)),
    }
}

/// Lowers a parameter: binds a register to its name and appends its `input` line.
pub fn to_aleo_input_line(parameter: &Param, register_registry: &mut Registry, out: &mut String) -> (r:
    Result<(), LowerError>)
    requires
        old(register_registry).wf(),
        old(register_registry)@.len() < u32::MAX,
    ensures
        final(register_registry).wf(),
        step_agrees(
            lower_param(*parameter, Lowering { text: old(out)@, log: old(register_registry)@ }),
            r,
            final(out)@,
            final(register_registry)@,
        ),
        r is Ok ==> final(register_registry)@.len() == old(register_registry)@.len() + 1,
        r is Err ==> final(register_registry)@ == old(register_registry)@,
        r is Err ==> final(out)@ == old(out)@,
{
    match &parameter.pattern {
        Pattern::Identifier(name) => {
            let register_type = match to_aleo_type(&parameter.typ) {
                Ok(t) => t,
                Err(e) => return Err(e),
            };
            let visibility = to_aleo_visibility(parameter.visibility);
            let register = register_registry.allocate(Some(name.clone()));
            emit_typed_line(out, "input", register, &register_type, &visibility);
            proof {
                reveal_strlit("input");
                reveal_strlit("\tinput ");
                reveal_strlit("\t");
                reveal_strlit(" ");
                assert("\t"@ + "input"@ + " "@ =~= "\tinput "@);
            }
            Ok(())
        },
        Pattern::Other(kind) => Err(LowerError::UnsupportedPattern(*kind)),
    }
}

/// Lowers a function and appends its text to `aleo_program`; on failure
/// `aleo_program` is left as it was.
pub fn compile_function(function: &Function, aleo_program: &mut String) -> (r: Result<
    (),
    LowerError,
>)
    requires
        registers_fit(*function),
    ensures
        match r {
            Ok(_) => exists|t: Seq<char>|
                lower_function(*function) == Ok::<Seq<char>, LowerError>(t) && final(aleo_program)@
                    == old(aleo_program)@ + t,
            Err(e) => lower_function(*function) == Err::<Seq<char>, LowerError>(e)
                && final(aleo_program)@ == old(aleo_program)@,
        },
{
    let ghost params = function.parameters@;
    let ghost body = function.body@;
    let ghost start = function_start(*function);
    let mut register_registry = Registry::new();
    let mut text = to_aleo_function_definition(function.name.as_str());
    push_new_line(&mut text);
    /* Inputs */
    let mut i: usize = 0;
    while i < function.parameters.len()
        invariant
            register_registry.wf(),
            i <= params.len(),
            params == function.parameters@,
            start == function_start(*function),
            params.len() + body_allocations(body) <= u32::MAX,
            register_registry@.len() == i,
            lower_params(params.take(i as int), start) == Ok::<Lowering, LowerError>(
                Lowering { text: text@, log: register_registry@ },
            ),
        decreases params.len() - i,
    {
        let step = to_aleo_input_line(&function.parameters[i], &mut register_registry, &mut text);
        proof {
            assert(params.take(i + 1).drop_last() =~= params.take(i as int));
            assert(params.take(i + 1).last() == params[i as int]);
        }
        match step {
            Ok(_) => {},
            Err(e) => {
                proof {
                    assert(lower_params(params.take(i + 1), start) == Err::<Lowering, LowerError>(
                        e,
                    ));
                    lemma_params_error_persists(params, start, i + 1);
                    assert(lower_body(*function) == Err::<Lowering, LowerError>(e));
                }
                return Err(e);
            },
        }
        i += 1;
    }
    proof {
        assert(params.take(i as int) =~= params);
        assert(body.skip(0) =~= body);
    }
    let ghost after_params = Lowering { text: text@, log: register_registry@ };
    /* Body */
    let mut j: usize = 0;
    while j < function.body.len()
        invariant
            register_registry.wf(),
            j <= body.len(),
            body == function.body@,
            register_registry@.len() + body_allocations(body.skip(j as int)) <= u32::MAX,
            lower_body(*function) == lower_statements(body, after_params),
            lower_statements(body.take(j as int), after_params) == Ok::<Lowering, LowerError>(
                Lowering { text: text@, log: register_registry@ },
            ),
        decreases body.len() - j,
    {
        proof {
            assert(body.skip(j as int).skip(1) =~= body.skip(j + 1));
            assert(body.skip(j as int)[0] == body[j as int]);
        }
        let step = to_aleo_operation_line(&function.body[j], &mut register_registry, &mut text);
        proof {
            assert(body.take(j + 1).drop_last() =~= body.take(j as int));
            assert(body.take(j + 1).last() == body[j as int]);
        }
        match step {
            Ok(_) => {},
            Err(e) => {
                proof {
                    lemma_statements_error_persists(body, after_params, j + 1);
                }
                return Err(e);
            },
        }
        j += 1;
    }
    proof {
        assert(body.take(j as int) =~= body);
    }
    /* Output */
    let output_register = match register_registry.last() {
        Ok(r) => r,
        Err(e) => return Err(e),
    };
    let output_type = match to_aleo_type(&function.return_type) {
        Ok(t) => t,
        Err(e) => return Err(e),
    };
    let output_visibility = to_aleo_visibility(function.return_visibility);
    let ghost before_output = text@;
    emit_typed_line(&mut text, "output", output_register, &output_type, &output_visibility);
    proof {
        reveal_strlit("output");
        reveal_strlit("\toutput ");
        reveal_strlit("\t");
        reveal_strlit(" ");
        assert("\t"@ + "output"@ + " "@ =~= "\toutput "@);
        assert(text@ =~= before_output + output_line(
            output_register as nat,
            output_type@,
            output_visibility@,
        ));
    }
    aleo_program.append(text.as_str());
    Ok(())
}

/// The target program for the functions of `noir_ast`, named `program_name`.
pub fn compile_program(program_name: &str, noir_ast: &Module) -> (r: Result<String, ProgramError>)
    requires
        all_registers_fit(noir_ast.functions@),
    ensures
        match r {
            Ok(s) => lower_program(program_name@, noir_ast.functions@) == Ok::<
                Seq<char>,
                ProgramError,
            >(s@),
            Err(e) => lower_program(program_name@, noir_ast.functions@) == Err::<
                Seq<char>,
                ProgramError,
            >(e),
        },
{
    let ghost fs = noir_ast.functions@;
    let mut aleo_program = String::new();
    aleo_program.append("program ");
    aleo_program.append(program_name);
    aleo_program.append(".aleo;");
    push_new_line(&mut aleo_program);
    push_new_line(&mut aleo_program);
    let ghost header = aleo_program@;
    proof {
        assert(header =~= program_header(program_name@));
    }
    let mut i: usize = 0;
    while i < noir_ast.functions.len()
        invariant
            i <= fs.len(),
            fs == noir_ast.functions@,
            all_registers_fit(fs),
            header == program_header(program_name@),
            lower_functions(fs.take(i as int)) matches Ok(t) && aleo_program@ == header + t,
        decreases fs.len() - i,
    {
        let function = &noir_ast.functions[i];
        let step = compile_function(function, &mut aleo_program);
        proof {
            assert(fs.take(i + 1).drop_last() =~= fs.take(i as int));
            assert(fs.take(i + 1).last() == fs[i as int]);
        }
        match step {
            Ok(_) => {
                proof {
                    let t = lower_functions(fs.take(i as int))->Ok_0;
                    let ft = lower_function(fs[i as int])->Ok_0;
                    assert(aleo_program@ =~= header + (t + ft));
                }
            },
            Err(e) => {
                let err = ProgramError { function: function.name.clone(), error: e };
                proof {
                    lemma_functions_error_persists(fs, i + 1);
                }
                return Err(err);
            },
        }
        i += 1;
    }
    proof {
        assert(fs.take(i as int) =~= fs);
    }
    Ok(aleo_program)
}

/// Where a program's text is written, relative to the working directory.
pub const ALEO_BUILD_DIR: &'static str = "build/aleo";

/// `build/aleo/<name>.aleo`
pub open spec fn output_path(program_name: Seq<char>) -> Seq<char> {
    "build/aleo"@ + seq!['/'] + program_name + ".aleo"@
}

/// A lowered program and the path, relative to the working directory, that
/// it is to be written to.
pub struct AleoProgram {
    pub path: String,
    pub source: String,
}

/// Lowers a parsed program and names the file its text belongs in.
pub fn compile_to_aleo_instructions(program_name: &str, noir_ast: &Module) -> (r: Result<
    AleoProgram,
    ProgramError,
>)
    requires
        all_registers_fit(noir_ast.functions@),
    ensures
        match r {
            Ok(p) => p.path@ == output_path(program_name@) && lower_program(
                program_name@,
                noir_ast.functions@,
            ) == Ok::<Seq<char>, ProgramError>(p.source@),
            Err(e) => lower_program(program_name@, noir_ast.functions@) == Err::<
                Seq<char>,
                ProgramError,
            >(e),
        },
{
    let source = match compile_program(program_name, noir_ast) {
        Ok(s) => s,
        Err(e) => return Err(e),
    };
    let mut path = String::new();
    path.append(ALEO_BUILD_DIR);
    push_char(&mut path, '/');
    path.append(program_name);
    path.append(".aleo");
    Ok(AleoProgram { path, source })
}

fn infix_count_within(e: &Expr, limit: u32) -> (r: Option<u32>)
    ensures
        match r {
            Some(c) => c as nat == infix_count(*e) && c <= limit,
            None => infix_count(*e) > limit,
        },
    decreases e,
{
    match e {
        Expr::Infix(lhs, _, rhs) => {
            if limit == 0 {
                return None;
            }
            let left = match infix_count_within(lhs, limit - 1) {
                Some(c) => c,
                None => return None,
            };
            let right = match infix_count_within(rhs, limit - 1 - left) {
                Some(c) => c,
                None => return None,
            };
            Some(1 + left + right)
        },
        _ => Some(0),
    }
}

fn statement_allocations_within(s: &Statement, limit: u32) -> (r: Option<u32>)
    ensures
        match r {
            Some(c) => c as nat == statement_allocations(*s) && c <= limit,
            None => statement_allocations(*s) > limit,
        },
{
    match s {
        Statement::Constrain(Expr::Infix(lhs, _, rhs)) => {
            let left = match infix_count_within(lhs, limit) {
                Some(c) => c,
                None => return None,
            };
            let right = match infix_count_within(rhs, limit - left) {
                Some(c) => c,
                None => return None,
            };
            Some(left + right)
        },
        Statement::Expression(e) => infix_count_within(e, limit),
        _ => Some(0),
    }
}

/// Whether a function's registers can all be numbered, as `compile_function` requires.
pub fn function_registers_fit(function: &Function) -> (r: bool)
    ensures
        r == registers_fit(*function),
{
    let ghost body = function.body@;
    if function.parameters.len() > 0xffff_ffffusize {
        return false;
    }
    let limit = (0xffff_ffffusize - function.parameters.len()) as u32;
    let mut used: u32 = 0;
    let mut j: usize = 0;
    proof {
        assert(body.skip(0) =~= body);
    }
    while j < function.body.len()
        invariant
            body == function.body@,
            j <= body.len(),
            used <= limit,
            used as nat + body_allocations(body.skip(j as int)) == body_allocations(body),
            limit as nat + function.parameters@.len() == u32::MAX,
        decreases body.len() - j,
    {
        proof {
            assert(body.skip(j as int).skip(1) =~= body.skip(j + 1));
            assert(body.skip(j as int)[0] == body[j as int]);
        }
        match statement_allocations_within(&function.body[j], limit - used) {
            Some(c) => {
                used = used + c;
            },
            None => {
                proof {
                    assert(body_allocations(body.skip(j as int)) == statement_allocations(body[j as int])
                        + body_allocations(body.skip(j + 1)));
                }
                return false;
            },
        }
        j += 1;
    }
    proof {
        assert(body.skip(j as int) =~= Seq::<Statement>::empty());
    }
    true
}

/// Whether every function's registers can all be numbered, as
/// `compile_program` requires.
pub fn registers_fit_all(noir_ast: &Module) -> (r: bool)
    ensures
        r == all_registers_fit(noir_ast.functions@),
{
    let mut i: usize = 0;
    while i < noir_ast.functions.len()
        invariant
            i <= noir_ast.functions@.len(),
            forall|k: int| 0 <= k < i ==> registers_fit(#[trigger] noir_ast.functions@[k]),
        decreases noir_ast.functions@.len() - i,
    {
        if !function_registers_fit(&noir_ast.functions[i]) {
            return false;
        }
        i += 1;
    }
    true
}

} // verus!
