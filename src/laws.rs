//! Properties of the lowering that relate several of its steps.

use vstd::prelude::*;

use crate::ast::{BinaryOp, Expr, Function, Param, Pattern, Statement};
use crate::lower::{
    assert_line, body_allocations, function_start, infix_count, input_line, lower_body, lower_expr,
    lower_function, lower_param, lower_params, lower_program, lower_statement, lower_statements,
    operation_line, output_line, statement_allocations, type_text, visibility_text, Lowering,
};
use crate::registry::{last_index, lemma_last_index_push};

verus! {

/// The name a parameter binds, if its pattern is a plain name.
pub open spec fn param_name(p: Param) -> Option<Seq<char>> {
    match p.pattern {
        Pattern::Identifier(name) => Some(name@),
        Pattern::Other(_) => None,
    }
}

/// Lowering an expression allocates one register per infix operation,
/// after the registers allocated before it, which stay as they were.
pub proof fn lemma_expr_allocations(e: Expr, st: Lowering)
    ensures
        lower_expr(e, st) matches Ok((st1, _)) ==> st1.log.len() == st.log.len() + infix_count(e)
            && st1.log.take(st.log.len() as int) == st.log,
    decreases e,
{
    match e {
        Expr::Infix(lhs, op, rhs) => {
            lemma_expr_allocations(*lhs, st);
            if let Ok((st1, a)) = lower_expr(*lhs, st) {
                lemma_expr_allocations(*rhs, st1);
                if let Ok((st2, b)) = lower_expr(*rhs, st1) {
                    assert(st2.log.take(st.log.len() as int) =~= st1.log.take(st.log.len() as int));
                    assert(st2.log.push(None).take(st.log.len() as int) =~= st.log);
                }
            }
        },
        _ => {},
    }
}

/// Lowering a statement allocates `statement_allocations` registers after
/// the earlier ones, which stay as they were.
pub proof fn lemma_statement_allocations(s: Statement, st: Lowering)
    ensures
        lower_statement(s, st) matches Ok(st1) ==> st1.log.len() == st.log.len()
            + statement_allocations(s) && st1.log.take(st.log.len() as int) == st.log,
{
    match s {
        Statement::Constrain(Expr::Infix(lhs, op, rhs)) => {
            lemma_expr_allocations(*lhs, st);
            if let Ok((st1, a)) = lower_expr(*lhs, st) {
                lemma_expr_allocations(*rhs, st1);
                if let Ok((st2, b)) = lower_expr(*rhs, st1) {
                    assert(st2.log.take(st.log.len() as int) =~= st1.log.take(st.log.len() as int));
                }
            }
        },
        Statement::Expression(e) => {
            lemma_expr_allocations(e, st);
        },
        _ => {},
    }
}

proof fn lemma_params_log(ps: Seq<Param>, st: Lowering)
    ensures
        lower_params(ps, st) matches Ok(st1) ==> st1.log == st.log + ps.map_values(
            |p: Param| param_name(p),
        ),
    decreases ps.len(),
{
    if ps.len() > 0 {
        lemma_params_log(ps.drop_last(), st);
        if let Ok(st1) = lower_params(ps.drop_last(), st) {
            if let Ok(st2) = lower_param(ps.last(), st1) {
                assert(st2.log =~= st.log + ps.map_values(|p: Param| param_name(p)));
            }
        }
    }
}

proof fn lemma_silent_statements_keep_log(ss: Seq<Statement>, st: Lowering)
    requires
        forall|i: int| 0 <= i < ss.len() ==> statement_allocations(#[trigger] ss[i]) == 0,
    ensures
        lower_statements(ss, st) matches Ok(st1) ==> st1.log == st.log,
    decreases ss.len(),
{
    if ss.len() > 0 {
        let init = ss.drop_last();
        assert forall|i: int| 0 <= i < init.len() implies statement_allocations(
            #[trigger] init[i],
        ) == 0 by {
            assert(init[i] == ss[i]);
        }
        lemma_silent_statements_keep_log(init, st);
        if let Ok(st1) = lower_statements(init, st) {
            lemma_statement_allocations(ss.last(), st1);
            if let Ok(st2) = lower_statement(ss.last(), st1) {
                assert(st2.log =~= st1.log.take(st1.log.len() as int));
            }
        }
    }
}

proof fn lemma_no_allocations_each(ss: Seq<Statement>)
    requires
        body_allocations(ss) == 0,
    ensures
        forall|i: int| 0 <= i < ss.len() ==> statement_allocations(#[trigger] ss[i]) == 0,
    decreases ss.len(),
{
    if ss.len() > 0 {
        lemma_no_allocations_each(ss.skip(1));
        assert forall|i: int| 0 <= i < ss.len() implies statement_allocations(#[trigger] ss[i])
            == 0 by {
            if i > 0 {
                assert(ss[i] == ss.skip(1)[i - 1]);
            }
        }
    }
}

/// When a function lowers and its body has no intermediate expression, it
/// allocates exactly one register per parameter, register `i` for the
/// `i`-th parameter.
pub proof fn lemma_parameters_take_registers_in_order(f: Function)
    requires
        body_allocations(f.body@) == 0,
        lower_body(f) is Ok,
    ensures
        lower_body(f)->Ok_0.log == f.parameters@.map_values(|p: Param| param_name(p)),
{
    lemma_params_log(f.parameters@, function_start(f));
    assert(function_start(f).log + f.parameters@.map_values(|p: Param| param_name(p))
        =~= f.parameters@.map_values(|p: Param| param_name(p)));
    lemma_no_allocations_each(f.body@);
    let st = lower_params(f.parameters@, function_start(f))->Ok_0;
    lemma_silent_statements_keep_log(f.body@, st);
}

/// Lowering is a function of its input: the same program name and functions
/// always give the same text, or the same failure.
pub proof fn lemma_lowering_is_deterministic(
    name: Seq<char>,
    fs1: Seq<Function>,
    fs2: Seq<Function>,
)
    requires
        fs1 == fs2,
    ensures
        lower_program(name, fs1) == lower_program(name, fs2),
{
}

/// A function's text depends on the function alone: not on the text it is
/// appended to, nor on the functions lowered before it, each of which has
/// registers of its own.
pub proof fn lemma_function_lowering_is_deterministic(f1: Function, f2: Function)
    requires
        f1 == f2,
    ensures
        lower_function(f1) == lower_function(f2),
{
}

/// A constraint `a == b` over two bound names lowers to exactly one
/// `assert.eq` line over their registers, and allocates nothing.
pub proof fn lemma_equality_constraint_over_names(a: String, b: String, st: Lowering)
    requires
        last_index(st.log, Some(a@)) is Some,
        last_index(st.log, Some(b@)) is Some,
    ensures
        lower_statement(
            Statement::Constrain(
                Expr::Infix(Box::new(Expr::Ident(a)), BinaryOp::Equal, Box::new(Expr::Ident(b))),
            ),
            st,
        ) == Ok::<Lowering, crate::error::LowerError>(
            Lowering {
                text: st.text + assert_line(
                    "assert.eq"@,
                    last_index(st.log, Some(a@))->Some_0,
                    last_index(st.log, Some(b@))->Some_0,
                ),
                log: st.log,
            },
        ),
{
}

/// In a function whose body is `a + b` over two of its parameters, the body
/// lowers to one `add` of their registers into a fresh register, the next
/// after the parameters', and that register is the one the `output` line names.
pub proof fn lemma_sum_of_parameters(f: Function, a: String, b: String)
    requires
        lower_params(f.parameters@, function_start(f)) matches Ok(st) && last_index(
            st.log,
            Some(a@),
        ) is Some && last_index(st.log, Some(b@)) is Some,
        f.body@ == seq![
            Statement::Expression(
                Expr::Infix(Box::new(Expr::Ident(a)), BinaryOp::Add, Box::new(Expr::Ident(b))),
            ),
        ],
        type_text(f.return_type) is Ok,
    ensures
        ({
            let st = lower_params(f.parameters@, function_start(f))->Ok_0;
            let n = st.log.len();
            lower_function(f) == Ok::<Seq<char>, crate::error::LowerError>(
                st.text + operation_line(
                    BinaryOp::Add,
                    last_index(st.log, Some(a@))->Some_0,
                    last_index(st.log, Some(b@))->Some_0,
                    n,
                ) + output_line(
                    n,
                    type_text(f.return_type)->Ok_0,
                    visibility_text(f.return_visibility),
                ),
            )
        }),
{
    let st = lower_params(f.parameters@, function_start(f))->Ok_0;
    let body = f.body@;
    assert(body.drop_last() =~= Seq::<Statement>::empty());
    assert(lower_statements(body.drop_last(), st) == Ok::<Lowering, crate::error::LowerError>(st));
    let e = Expr::Infix(Box::new(Expr::Ident(a)), BinaryOp::Add, Box::new(Expr::Ident(b)));
    assert(body.last() == Statement::Expression(e));
    let ia = last_index(st.log, Some(a@))->Some_0;
    let ib = last_index(st.log, Some(b@))->Some_0;
    let after = Lowering {
        text: st.text + operation_line(BinaryOp::Add, ia, ib, st.log.len()),
        log: st.log.push(None),
    };
    assert(lower_expr(Expr::Ident(a), st) == Ok::<(Lowering, nat), crate::error::LowerError>(
        (st, ia),
    ));
    assert(lower_expr(Expr::Ident(b), st) == Ok::<(Lowering, nat), crate::error::LowerError>(
        (st, ib),
    ));
    assert(lower_expr(e, st) == Ok::<(Lowering, nat), crate::error::LowerError>(
        (after, st.log.len()),
    ));
    assert(lower_statements(body, st) == Ok::<Lowering, crate::error::LowerError>(after));
    assert(lower_body(f) == Ok::<Lowering, crate::error::LowerError>(after));
}

/// `n` anonymous registers.
pub open spec fn anonymous(n: nat) -> Seq<Option<Seq<char>>> {
    Seq::new(n, |i: int| None::<Seq<char>>)
}

/// Every name that `e` uses is bound in `log`, and `e` has no other kind of leaf.
pub open spec fn names_bound(e: Expr, log: Seq<Option<Seq<char>>>) -> bool
    decreases e,
{
    match e {
        Expr::Ident(name) => last_index(log, Some(name@)) is Some,
        Expr::Infix(lhs, _, rhs) => names_bound(*lhs, log) && names_bound(*rhs, log),
        Expr::Other(_) => false,
    }
}

proof fn lemma_anonymous_keep_names(log: Seq<Option<Seq<char>>>, n: nat, name: Seq<char>)
    ensures
        last_index(log + anonymous(n), Some(name)) == last_index(log, Some(name)),
    decreases n,
{
    if n == 0 {
        assert(log + anonymous(0) =~= log);
    } else {
        lemma_anonymous_keep_names(log, (n - 1) as nat, name);
        assert(log + anonymous(n) =~= (log + anonymous((n - 1) as nat)).push(None));
        lemma_last_index_push(log + anonymous((n - 1) as nat), None, Some(name));
    }
}

proof fn lemma_names_bound_after_anonymous(e: Expr, log: Seq<Option<Seq<char>>>, n: nat)
    requires
        names_bound(e, log),
    ensures
        names_bound(e, log + anonymous(n)),
    decreases e,
{
    match e {
        Expr::Ident(name) => lemma_anonymous_keep_names(log, n, name@),
        Expr::Infix(lhs, _, rhs) => {
            lemma_names_bound_after_anonymous(*lhs, log, n);
            lemma_names_bound_after_anonymous(*rhs, log, n);
        },
        Expr::Other(_) => {},
    }
}

/// An expression whose names are all bound lowers, and its infix nodes take
/// the next `infix_count(e)` registers of the same numbering as the named
/// ones, all anonymous, in post-order (both operands before the node), so
/// a compound expression's value is the last of them.
pub proof fn lemma_expr_registers(e: Expr, st: Lowering)
    requires
        names_bound(e, st.log),
    ensures
        lower_expr(e, st) matches Ok((st1, a)) && st1.log == st.log + anonymous(infix_count(e))
            && (infix_count(e) > 0 ==> a == st.log.len() + infix_count(e) - 1),
    decreases e,
{
    match e {
        Expr::Ident(name) => {
            assert(st.log + anonymous(0) =~= st.log);
        },
        Expr::Infix(lhs, op, rhs) => {
            lemma_expr_registers(*lhs, st);
            let (st1, a) = lower_expr(*lhs, st)->Ok_0;
            lemma_names_bound_after_anonymous(*rhs, st.log, infix_count(*lhs));
            lemma_expr_registers(*rhs, st1);
            let (st2, b) = lower_expr(*rhs, st1)->Ok_0;
            assert(st2.log.push(None) =~= st.log + anonymous(infix_count(e)));
        },
        Expr::Other(_) => {},
    }
}

/// The parameter is a plain name of a type with a target type.
pub open spec fn param_supported(p: Param) -> bool {
    p.pattern is Identifier && type_text(p.typ) is Ok
}

/// The `input` lines of parameters, the `i`-th on register `i`.
pub open spec fn inputs_text(ps: Seq<Param>) -> Seq<char>
    decreases ps.len(),
{
    if ps.len() == 0 {
        Seq::empty()
    } else {
        inputs_text(ps.drop_last()) + input_line(
            (ps.len() - 1) as nat,
            type_text(ps.last().typ)->Ok_0,
            visibility_text(ps.last().visibility),
        )
    }
}

proof fn lemma_params_succeed(ps: Seq<Param>, st: Lowering)
    requires
        st.log.len() == 0,
        forall|i: int| 0 <= i < ps.len() ==> param_supported(#[trigger] ps[i]),
    ensures
        lower_params(ps, st) == Ok::<Lowering, crate::error::LowerError>(
            Lowering {
                text: st.text + inputs_text(ps),
                log: ps.map_values(|p: Param| param_name(p)),
            },
        ),
    decreases ps.len(),
{
    if ps.len() == 0 {
        assert(st.text + inputs_text(ps) =~= st.text);
        assert(ps.map_values(|p: Param| param_name(p)) =~= st.log);
    } else {
        let init = ps.drop_last();
        assert forall|i: int| 0 <= i < init.len() implies param_supported(#[trigger] init[i]) by {
            assert(init[i] == ps[i]);
        }
        lemma_params_succeed(init, st);
        assert(param_supported(ps[ps.len() - 1]));
        let line = input_line(
            (ps.len() - 1) as nat,
            type_text(ps.last().typ)->Ok_0,
            visibility_text(ps.last().visibility),
        );
        assert(st.text + inputs_text(init) + line =~= st.text + inputs_text(ps));
        assert(init.map_values(|p: Param| param_name(p)).push(param_name(ps.last()))
            =~= ps.map_values(|p: Param| param_name(p)));
    }
}

/// A statement that only names a bound binding.
pub open spec fn names_a_binding(s: Statement, log: Seq<Option<Seq<char>>>) -> bool {
    s matches Statement::Expression(e) && e is Ident && names_bound(e, log)
}

proof fn lemma_naming_statements_write_nothing(ss: Seq<Statement>, st: Lowering)
    requires
        forall|j: int| 0 <= j < ss.len() ==> names_a_binding(#[trigger] ss[j], st.log),
    ensures
        lower_statements(ss, st) == Ok::<Lowering, crate::error::LowerError>(st),
    decreases ss.len(),
{
    if ss.len() > 0 {
        let init = ss.drop_last();
        assert forall|j: int| 0 <= j < init.len() implies names_a_binding(
            #[trigger] init[j],
            st.log,
        ) by {
            assert(init[j] == ss[j]);
        }
        lemma_naming_statements_write_nothing(init, st);
        assert(names_a_binding(ss[ss.len() - 1], st.log));
    }
}

/// A function with `k > 0` parameters, each a plain name of a supported
/// type, whose body only names its parameters and whose result type is
/// supported, lowers: to its header, one `input` line per parameter on
/// registers `r0` to `r(k-1)` in declaration order, and an `output` line on
/// `r(k-1)`. No other register occurs.
pub proof fn lemma_parameters_only_function(f: Function)
    requires
        f.parameters@.len() > 0,
        forall|i: int| 0 <= i < f.parameters@.len() ==> param_supported(#[trigger] f.parameters@[i]),
        forall|j: int|
            0 <= j < f.body@.len() ==> names_a_binding(
                #[trigger] f.body@[j],
                f.parameters@.map_values(|p: Param| param_name(p)),
            ),
        type_text(f.return_type) is Ok,
    ensures
        lower_function(f) == Ok::<Seq<char>, crate::error::LowerError>(
            function_start(f).text + inputs_text(f.parameters@) + output_line(
                (f.parameters@.len() - 1) as nat,
                type_text(f.return_type)->Ok_0,
                visibility_text(f.return_visibility),
            ),
        ),
{
    lemma_params_succeed(f.parameters@, function_start(f));
    let st = lower_params(f.parameters@, function_start(f))->Ok_0;
    lemma_naming_statements_write_nothing(f.body@, st);
}

} // verus!
