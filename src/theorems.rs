//! Facts about the language that hold of every program and state.

use vstd::prelude::*;
use crate::ast::{ExprModel, StmtModel, ValueModel};
use crate::interpreter::{
    RunState, call, callee, eval, eval_args, exec_block, exec_stmt, expr_size, exprs_size, fail,
    function_get, stmt_size, stmts_size, arity_message,
};
use crate::interpreter::HaltModel;
use crate::lexer::{LexError, Token, digits_end, is_space, scanned, skip_space};
use crate::parser::expression;
use crate::scope::{FrameModel, chain_get, chain_set, lemma_frame_set};
use crate::text::{decimal, decimal_value, digit_char, is_digit};

verus! {

/// Evaluating an expression leaves every frame as it was.
pub proof fn lemma_eval_keeps_frames(st: RunState, e: ExprModel, depth: nat)
    requires
        st.frames.len() >= 1,
    ensures
        eval(st, e, depth).0.frames == st.frames,
    decreases depth, expr_size(e), 0nat,
{
    match e {
        ExprModel::BinaryOp(l, op, r) => {
            lemma_eval_keeps_frames(st, *l, depth);
            let s1 = eval(st, *l, depth).0;
            lemma_eval_keeps_frames(s1, *r, depth);
        },
        ExprModel::FunctionCall(name, args) => {
            lemma_call_keeps_frames(st, name, args, depth);
        },
        _ => {},
    }
}

/// Evaluating arguments leaves every frame as it was.
pub proof fn lemma_eval_args_keeps_frames(st: RunState, args: Seq<ExprModel>, depth: nat)
    requires
        st.frames.len() >= 1,
    ensures
        eval_args(st, args, depth).0.frames == st.frames,
    decreases depth, exprs_size(args), 1nat,
{
    if args.len() > 0 {
        lemma_eval_args_keeps_frames(st, args.drop_last(), depth);
        let s1 = eval_args(st, args.drop_last(), depth).0;
        lemma_eval_keeps_frames(s1, args.last(), depth);
    }
}

/// A call gives the caller back its frames exactly as they were, whatever
/// the callee assigned and whether or not it failed.
pub proof fn lemma_call_keeps_frames(st: RunState, name: Seq<char>, args: Seq<ExprModel>, depth: nat)
    requires
        st.frames.len() >= 1,
    ensures
        call(st, name, args, depth).0.frames == st.frames,
    decreases depth, exprs_size(args), 2nat,
{
    match callee(st, name, args.len()) {
        Err(_) => {},
        Ok(d) => {
            lemma_eval_args_keeps_frames(st, args, depth);
            let (s1, vals) = eval_args(st, args, depth);
            match vals {
                Err(_) => {},
                Ok(vs) => {
                    if depth > 0 {
                        let s2 = RunState {
                            frames: s1.frames.push(crate::interpreter::bind_params(d.0, vs)),
                            ..s1
                        };
                        lemma_block_keeps_outer_frames(s2, d.1, (depth - 1) as nat);
                        let s3 = exec_block(s2, d.1, (depth - 1) as nat).0;
                        assert(s3.frames.drop_last() =~= s2.frames.drop_last());
                        assert(s2.frames.drop_last() =~= st.frames);
                    }
                },
            }
        },
    }
}

/// A statement changes at most the innermost frame.
pub proof fn lemma_stmt_keeps_outer_frames(st: RunState, s: StmtModel, depth: nat)
    requires
        st.frames.len() >= 1,
    ensures
        exec_stmt(st, s, depth).0.frames.len() == st.frames.len(),
        exec_stmt(st, s, depth).0.frames.drop_last() == st.frames.drop_last(),
    decreases depth, stmt_size(s), 0nat,
{
    match s {
        StmtModel::Program(body) => lemma_block_keeps_outer_frames(st, body, depth),
        StmtModel::Variable(n, e) => {
            lemma_eval_keeps_frames(st, e, depth);
            let s1 = eval(st, e, depth).0;
            match eval(st, e, depth).1 {
                Ok(v) => {
                    assert(chain_set(s1.frames, n, v).drop_last() =~= s1.frames.drop_last());
                },
                Err(_) => {},
            }
        },
        StmtModel::If(c, t, f) => {
            lemma_eval_keeps_frames(st, c, depth);
            let s1 = eval(st, c, depth).0;
            lemma_block_keeps_outer_frames(s1, t, depth);
            lemma_block_keeps_outer_frames(s1, f, depth);
        },
        StmtModel::FunctionCall(n, args) => lemma_call_keeps_frames(st, n, args, depth),
        _ => {},
    }
}

/// A block changes at most the innermost frame.
pub proof fn lemma_block_keeps_outer_frames(st: RunState, body: Seq<StmtModel>, depth: nat)
    requires
        st.frames.len() >= 1,
    ensures
        exec_block(st, body, depth).0.frames.len() == st.frames.len(),
        exec_block(st, body, depth).0.frames.drop_last() == st.frames.drop_last(),
    decreases depth, stmts_size(body), 1nat,
{
    if body.len() > 0 {
        lemma_block_keeps_outer_frames(st, body.drop_last(), depth);
        let s1 = exec_block(st, body.drop_last(), depth).0;
        lemma_stmt_keeps_outer_frames(s1, body.last(), depth);
    }
}

} // verus!

verus! {

proof fn lemma_decimal_digits(n: nat)
    ensures
        decimal(n).len() >= 1,
        forall|i: int| 0 <= i < decimal(n).len() ==> is_digit(#[trigger] decimal(n)[i]),
        decimal_value(decimal(n)) == n,
    decreases n,
{
    if n >= 10 {
        lemma_decimal_digits(n / 10);
        let s = decimal(n);
        assert(s.drop_last() =~= decimal(n / 10));
        assert(s.last() == digit_char(n % 10));
        assert(digit_char(n % 10) as int == n % 10 + 48);
        assert(decimal_value(s) == decimal_value(s.drop_last()) * 10 + (s.last() as int - '0' as int));
        assert((n / 10) * 10 + n % 10 == n);
        assert forall|i: int| 0 <= i < s.len() implies is_digit(#[trigger] s[i]) by {
            if i < s.len() - 1 {
                assert(s[i] == decimal(n / 10)[i]);
            }
        }
    } else {
        assert(decimal(n).drop_last() =~= Seq::<char>::empty());
        assert(digit_char(n) as int == n + 48);
        assert(decimal(n).last() == digit_char(n));
        assert(decimal_value(decimal(n)) == decimal_value(decimal(n).drop_last()) * 10 + (
        decimal(n).last() as int - '0' as int));
    }
}

proof fn lemma_digits_run(s: Seq<char>, p: int)
    requires
        0 <= p <= s.len(),
        forall|i: int| 0 <= i < s.len() ==> is_digit(#[trigger] s[i]),
    ensures
        digits_end(s, p) == s.len(),
    decreases s.len() - p,
{
    if p < s.len() {
        lemma_digits_run(s, p + 1);
    }
}

/// A number literal written in decimal lexes to that one number, parses as
/// that literal, and evaluates to that number, in any state.
pub proof fn lemma_number_literal_round_trip(n: i64, st: RunState, depth: nat)
    requires
        n >= 0,
    ensures
        forall|r: Option<Result<Token, LexError>>, end: int|
            #[trigger] scanned(decimal(n as nat), 0, r, end) <==> (r == Some(
                Ok::<Token, LexError>(Token::Number(n)),
            ) && end == decimal(n as nat).len()),
        forall|r: Option<Result<Token, LexError>>, end: int|
            #[trigger] scanned(decimal(n as nat), decimal(n as nat).len() as int, r, end) <==> (r
                is None && end == decimal(n as nat).len()),
        expression(seq![Token::Number(n)], 0) == Ok::<(ExprModel, int), Seq<char>>(
            (ExprModel::Literal(ValueModel::Number(n as int)), 1),
        ),
        eval(st, ExprModel::Literal(ValueModel::Number(n as int)), depth) == (
            st,
            Ok::<ValueModel, HaltModel>(ValueModel::Number(n as int)),
        ),
{
    let s = decimal(n as nat);
    lemma_decimal_digits(n as nat);
    lemma_digits_run(s, 0);
    assert(!is_space(s[0]));
    assert(skip_space(s, 0) == 0);
    assert(s.subrange(0, s.len() as int) =~= s);
    assert(skip_space(s, s.len() as int) == s.len());
}

/// After `x = v`, reading `x` gives `v`; after a second assignment
/// `x = w` in the same scope, reading `x` gives `w`.
pub proof fn lemma_assign_then_read(
    st: RunState,
    x: Seq<char>,
    v: ValueModel,
    w: ValueModel,
    depth: nat,
)
    requires
        st.frames.len() >= 1,
    ensures
        ({
            let s1 = exec_stmt(st, StmtModel::Variable(x, ExprModel::Literal(v)), depth).0;
            let s2 = exec_stmt(s1, StmtModel::Variable(x, ExprModel::Literal(w)), depth).0;
            &&& eval(s1, ExprModel::Variable(x), depth).1 == Ok::<ValueModel, HaltModel>(v)
            &&& eval(s2, ExprModel::Variable(x), depth).1 == Ok::<ValueModel, HaltModel>(w)
        }),
{
    let s1 = exec_stmt(st, StmtModel::Variable(x, ExprModel::Literal(v)), depth).0;
    lemma_read_after_set(st.frames, x, v);
    lemma_read_after_set(s1.frames, x, w);
}

/// Binding `x` in the innermost frame makes `x` resolve to the new value.
pub proof fn lemma_read_after_set(frames: Seq<FrameModel>, x: Seq<char>, v: ValueModel)
    requires
        frames.len() >= 1,
    ensures
        chain_get(chain_set(frames, x, v), x) == Some(v),
        chain_set(frames, x, v).len() == frames.len(),
{
    lemma_frame_set(frames.last(), x, v, x);
    assert(chain_set(frames, x, v).last() == crate::scope::frame_set(frames.last(), x, v));
}

/// A call, whatever its callee binds (its parameters included), leaves
/// every variable of the caller as it was.
pub proof fn lemma_call_shadows(
    st: RunState,
    name: Seq<char>,
    args: Seq<ExprModel>,
    depth: nat,
    x: Seq<char>,
)
    requires
        st.frames.len() >= 1,
    ensures
        chain_get(exec_stmt(st, StmtModel::FunctionCall(name, args), depth).0.frames, x)
            == chain_get(st.frames, x),
{
    lemma_call_keeps_frames(st, name, args, depth);
}

/// Calling a function with a number of arguments other than its number of
/// parameters fails, naming the function and both counts, and changes
/// nothing.
pub proof fn lemma_arity_mismatch(st: RunState, name: Seq<char>, args: Seq<ExprModel>, depth: nat)
    requires
        function_get(st.functions, name) is Some,
        (function_get(st.functions, name)->0).0.len() != args.len(),
    ensures
        call(st, name, args, depth) == (
            st,
            Err::<(), HaltModel>(
                fail(arity_message(name, (function_get(st.functions, name)->0).0.len(), args.len())),
            ),
        ),
{
}

/// Once a statement of a block halts, no later statement runs: the block
/// ends in the state and with the outcome of that statement.
pub proof fn lemma_halt_stops_block(st: RunState, body: Seq<StmtModel>, k: int, depth: nat)
    requires
        0 <= k < body.len(),
        exec_block(st, body.take(k), depth).1 is Ok,
        exec_stmt(exec_block(st, body.take(k), depth).0, body[k], depth).1 is Err,
    ensures
        exec_block(st, body, depth) == exec_stmt(
            exec_block(st, body.take(k), depth).0,
            body[k],
            depth,
        ),
    decreases body.len(),
{
    if k == body.len() - 1 {
        assert(body.drop_last() =~= body.take(k));
    } else {
        assert(body.drop_last().take(k) =~= body.take(k));
        assert(body.drop_last()[k] == body[k]);
        lemma_halt_stops_block(st, body.drop_last(), k, depth);
    }
}

/// Reading an undefined variable, or calling an undefined function, fails
/// with a runtime error that names it, and changes nothing; by
/// `lemma_halt_stops_block`, no later statement then runs.
pub proof fn lemma_undefined_reference(st: RunState, x: Seq<char>, args: Seq<ExprModel>, depth: nat)
    ensures
        chain_get(st.frames, x) is None ==> eval(st, ExprModel::Variable(x), depth) == (
            st,
            Err::<ValueModel, HaltModel>(fail("Undefined variable: "@ + x)),
        ),
        function_get(st.functions, x) is None ==> exec_stmt(
            st,
            StmtModel::FunctionCall(x, args),
            depth,
        ) == (st, Err::<(), HaltModel>(fail("Function "@ + x + " not found"@))),
{
}

} // verus!
