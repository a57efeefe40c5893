//! A tree-walking interpreter, with its semantics stated as spec functions.

use vstd::prelude::*;
use crate::ast::{
    ASTNode, Expr, ExprModel, StmtModel, Value, ValueModel, duplicate_stmts, duplicate_strings,
    exprs_model, render, stmts_model, strings_model,
};
use crate::error::{Error, ErrorModel};
use crate::scope::{FrameModel, Scope, chain_get, chain_set, frame_set};
use crate::text::{append, decimal, int_literal, parse_int, push_decimal, trim, trimmed};

verus! {

/// How deep calls of user functions may nest.
pub const MAX_CALL_DEPTH: usize = 200;

/// A registered function: parameter names and body.
pub type FunctionModel = (Seq<Seq<char>>, Seq<StmtModel>);

/// Everything a program run can read or change.
pub struct RunState {
    /// The scope chain, outermost frame first.
    pub frames: Seq<FrameModel>,
    /// The function table, by name.
    pub functions: Seq<(Seq<char>, FunctionModel)>,
    /// The lines written so far.
    pub output: Seq<Seq<char>>,
    /// The input lines not read yet.
    pub input: Seq<Seq<char>>,
}

/// Why a run stopped early.
pub enum HaltModel {
    /// An `exit` statement ran.
    Exit,
    /// A runtime error.
    Fail(ErrorModel),
}

pub open spec fn fail(message: Seq<char>) -> HaltModel {
    HaltModel::Fail(ErrorModel::Runtime(message))
}

/// The function registered under `k`: its last registration.
pub open spec fn function_get(f: Seq<(Seq<char>, FunctionModel)>, k: Seq<char>) -> Option<
    FunctionModel,
>
    decreases f.len(),
{
    if f.len() == 0 {
        None
    } else if f.last().0 == k {
        Some(f.last().1)
    } else {
        function_get(f.drop_last(), k)
    }
}

pub open spec fn function_index(f: Seq<(Seq<char>, FunctionModel)>, k: Seq<char>) -> Option<int>
    decreases f.len(),
{
    if f.len() == 0 {
        None
    } else if f.last().0 == k {
        Some(f.len() - 1)
    } else {
        function_index(f.drop_last(), k)
    }
}

/// The table after registering `d` under `k`, replacing an earlier entry.
pub open spec fn function_set(
    f: Seq<(Seq<char>, FunctionModel)>,
    k: Seq<char>,
    d: FunctionModel,
) -> Seq<(Seq<char>, FunctionModel)> {
    match function_index(f, k) {
        Some(i) => f.update(i, (k, d)),
        None => f.push((k, d)),
    }
}

/// A frame holding the parameters bound, in order, to the values.
pub open spec fn bind_params(params: Seq<Seq<char>>, vals: Seq<ValueModel>) -> FrameModel
    decreases params.len(),
{
    if params.len() == 0 || vals.len() != params.len() {
        Seq::empty()
    } else {
        frame_set(
            bind_params(params.drop_last(), vals.drop_last()),
            params.last(),
            vals.last(),
        )
    }
}

/// The number that `a op b` gives, if it fits in 64 bits.
pub open spec fn checked(r: int) -> Result<ValueModel, HaltModel> {
    if i64::MIN <= r <= i64::MAX {
        Ok(ValueModel::Number(r))
    } else {
        Err(fail("Arithmetic overflow"@))
    }
}

/// Division that rounds toward zero.
pub open spec fn div_toward_zero(a: int, b: int) -> int {
    let q = (if a < 0 { -a } else { a }) / (if b < 0 { -b } else { b });
    if (a < 0) != (b < 0) {
        -q
    } else {
        q
    }
}

pub open spec fn invalid_operation(a: ValueModel, op: Seq<char>, b: ValueModel) -> HaltModel {
    fail("Invalid operation for "@ + render(a) + " and "@ + render(b) + " with operator "@ + op)
}

/// The value of `a op b`.
pub open spec fn binary(a: ValueModel, op: Seq<char>, b: ValueModel) -> Result<
    ValueModel,
    HaltModel,
> {
    match (a, b) {
        (ValueModel::Number(x), ValueModel::Number(y)) => {
            if op == "+"@ {
                checked(x + y)
            } else if op == "-"@ {
                checked(x - y)
            } else if op == "*"@ {
                checked(x * y)
            } else if op == "/"@ {
                if y == 0 {
                    Err(fail("Division by zero"@))
                } else {
                    checked(div_toward_zero(x, y))
                }
            } else if op == ">"@ {
                Ok(ValueModel::Boolean(x > y))
            } else if op == "<"@ {
                Ok(ValueModel::Boolean(x < y))
            } else if op == "=="@ {
                Ok(ValueModel::Boolean(x == y))
            } else {
                Err(invalid_operation(a, op, b))
            }
        },
        (ValueModel::Text(x), ValueModel::Text(y)) => {
            if op == "+"@ {
                Ok(ValueModel::Text(x + y))
            } else {
                Err(invalid_operation(a, op, b))
            }
        },
        _ => Err(invalid_operation(a, op, b)),
    }
}

/// The value read from an input line: a number if the trimmed line writes
/// one, else the trimmed text.
pub open spec fn input_value(line: Seq<char>) -> ValueModel {
    match int_literal(trimmed(line)) {
        Some(n) => ValueModel::Number(n),
        None => ValueModel::Text(trimmed(line)),
    }
}

/// The state after showing `prompt` and reading one line: the next input
/// line, or an empty one at the end of the input.
pub open spec fn read_line(st: RunState, prompt: Seq<char>) -> (RunState, Seq<char>) {
    let line = if st.input.len() > 0 {
        st.input[0]
    } else {
        Seq::empty()
    };
    let rest = if st.input.len() > 0 {
        st.input.drop_first()
    } else {
        st.input
    };
    (RunState { output: st.output.push(prompt), input: rest, ..st }, line)
}

pub open spec fn arity_message(name: Seq<char>, expected: nat, got: nat) -> Seq<char> {
    "Function "@ + name + " expected "@ + decimal(expected) + " arguments, but got "@ + decimal(
        got,
    )
}

/// Looks up `name` and checks that it takes `n` arguments.
pub open spec fn callee(st: RunState, name: Seq<char>, n: nat) -> Result<
    FunctionModel,
    HaltModel,
> {
    match function_get(st.functions, name) {
        None => Err(fail("Function "@ + name + " not found"@)),
        Some(d) => {
            if d.0.len() != n {
                Err(fail(arity_message(name, d.0.len(), n)))
            } else {
                Ok(d)
            }
        },
    }
}

/// The number of nodes of an expression.
pub open spec fn expr_size(e: ExprModel) -> nat
    decreases e, 0nat,
{
    match e {
        ExprModel::BinaryOp(l, _, r) => 1 + expr_size(*l) + expr_size(*r),
        ExprModel::FunctionCall(_, args) => 1 + exprs_size(args),
        _ => 1,
    }
}

pub open spec fn exprs_size(s: Seq<ExprModel>) -> nat
    decreases s, 0nat,
{
    if s.len() == 0 {
        0
    } else {
        exprs_size(s.drop_last()) + expr_size(s.last()) + 1
    }
}

/// The number of nodes of a statement, not counting function bodies that it
/// only defines.
pub open spec fn stmt_size(s: StmtModel) -> nat
    decreases s, 0nat,
{
    match s {
        StmtModel::Program(b) => 1 + stmts_size(b),
        StmtModel::Variable(_, e) => 1 + expr_size(e),
        StmtModel::If(c, t, f) => 1 + expr_size(c) + stmts_size(t) + stmts_size(f),
        StmtModel::FunctionCall(_, args) => 1 + exprs_size(args),
        _ => 1,
    }
}

pub open spec fn stmts_size(s: Seq<StmtModel>) -> nat
    decreases s, 0nat,
{
    if s.len() == 0 {
        0
    } else {
        stmts_size(s.drop_last()) + stmt_size(s.last()) + 1
    }
}

/// Runs a call of `name` on `args`: the callee is looked up and its arity
/// checked, the arguments are evaluated in the caller's scope, the body runs
/// in a new frame holding the parameters, and the caller's frames come back
/// whether or not the body succeeds.
pub open spec fn call(st: RunState, name: Seq<char>, args: Seq<ExprModel>, depth: nat) -> (
    RunState,
    Result<(), HaltModel>,
)
    decreases depth, exprs_size(args), 2nat,
{
    match callee(st, name, args.len()) {
        Err(h) => (st, Err(h)),
        Ok(d) => {
            let (s1, vals) = eval_args(st, args, depth);
            match vals {
                Err(h) => (s1, Err(h)),
                Ok(vs) => {
                    if depth == 0 {
                        (s1, Err(fail("Maximum call depth exceeded"@)))
                    } else {
                        let s2 = RunState { frames: s1.frames.push(bind_params(d.0, vs)), ..s1 };
                        let (s3, r) = exec_block(s2, d.1, (depth - 1) as nat);
                        (RunState { frames: s3.frames.drop_last(), ..s3 }, r)
                    }
                },
            }
        },
    }
}

/// Evaluates the arguments from left to right.
pub open spec fn eval_args(st: RunState, args: Seq<ExprModel>, depth: nat) -> (
    RunState,
    Result<Seq<ValueModel>, HaltModel>,
)
    decreases depth, exprs_size(args), 1nat,
{
    if args.len() == 0 {
        (st, Ok(Seq::empty()))
    } else {
        let (s1, r) = eval_args(st, args.drop_last(), depth);
        match r {
            Err(h) => (s1, Err(h)),
            Ok(vs) => {
                let (s2, v) = eval(s1, args.last(), depth);
                match v {
                    Err(h) => (s2, Err(h)),
                    Ok(x) => (s2, Ok(vs.push(x))),
                }
            },
        }
    }
}

/// Evaluates an expression; `depth` is how many calls may still nest.
pub open spec fn eval(st: RunState, e: ExprModel, depth: nat) -> (
    RunState,
    Result<ValueModel, HaltModel>,
)
    decreases depth, expr_size(e), 0nat,
{
    match e {
        ExprModel::Literal(v) => (st, Ok(v)),
        ExprModel::Variable(n) => match chain_get(st.frames, n) {
            Some(v) => (st, Ok(v)),
            None => (st, Err(fail("Undefined variable: "@ + n))),
        },
        ExprModel::BinaryOp(l, op, r) => {
            let (s1, a) = eval(st, *l, depth);
            match a {
                Err(h) => (s1, Err(h)),
                Ok(x) => {
                    let (s2, b) = eval(s1, *r, depth);
                    match b {
                        Err(h) => (s2, Err(h)),
                        Ok(y) => (s2, binary(x, op, y)),
                    }
                },
            }
        },
        ExprModel::Input(prompt) => {
            let (s1, line) = read_line(st, prompt);
            (s1, Ok(input_value(line)))
        },
        ExprModel::FunctionCall(name, args) => {
            let (s1, r) = call(st, name, args, depth);
            match r {
                Err(h) => (s1, Err(h)),
                Ok(_) => (s1, Ok(ValueModel::Nil)),
            }
        },
    }
}

/// Runs one statement.
pub open spec fn exec_stmt(st: RunState, s: StmtModel, depth: nat) -> (
    RunState,
    Result<(), HaltModel>,
)
    decreases depth, stmt_size(s), 0nat,
{
    match s {
        StmtModel::Program(body) => exec_block(st, body, depth),
        StmtModel::Package(_) => (st, Ok(())),
        StmtModel::Import(_, _) => (st, Ok(())),
        StmtModel::Msg(m) => (RunState { output: st.output.push(m), ..st }, Ok(())),
        StmtModel::Variable(n, e) => {
            let (s1, r) = eval(st, e, depth);
            match r {
                Err(h) => (s1, Err(h)),
                Ok(v) => (RunState { frames: chain_set(s1.frames, n, v), ..s1 }, Ok(())),
            }
        },
        StmtModel::If(c, t, f) => {
            let (s1, r) = eval(st, c, depth);
            match r {
                Err(h) => (s1, Err(h)),
                Ok(v) => {
                    if v == ValueModel::Boolean(true) {
                        exec_block(s1, t, depth)
                    } else {
                        exec_block(s1, f, depth)
                    }
                },
            }
        },
        StmtModel::Function(n, params, body) => (
            RunState { functions: function_set(st.functions, n, (params, body)), ..st },
            Ok(()),
        ),
        StmtModel::FunctionCall(n, args) => call(st, n, args, depth),
        StmtModel::Exit => (
            RunState { output: st.output.push("Exiting program."@), ..st },
            Err(HaltModel::Exit),
        ),
    }
}

/// Runs statements in order, up to the first that halts.
pub open spec fn exec_block(st: RunState, body: Seq<StmtModel>, depth: nat) -> (
    RunState,
    Result<(), HaltModel>,
)
    decreases depth, stmts_size(body), 1nat,
{
    if body.len() == 0 {
        (st, Ok(()))
    } else {
        let (s1, r) = exec_block(st, body.drop_last(), depth);
        match r {
            Err(h) => (s1, Err(h)),
            Ok(_) => exec_stmt(s1, body.last(), depth),
        }
    }
}

} // verus!

verus! {

/// Why a run stopped early.
#[derive(Debug, PartialEq)]
pub enum Halt {
    /// An `exit` statement ran.
    Exit,
    /// A runtime error.
    Fail(Error),
}

/// How a program run ended without error.
#[derive(Debug, PartialEq, Eq, Clone, Copy)]
pub enum Flow {
    /// Every statement ran.
    Completed,
    /// An `exit` statement ran; nothing after it did.
    Exited,
}

impl Halt {
    pub open spec fn model(&self) -> HaltModel {
        match self {
            Halt::Exit => HaltModel::Exit,
            Halt::Fail(e) => HaltModel::Fail(e.model()),
        }
    }
}

pub open spec fn value_outcome(r: Result<Value, Halt>) -> Result<ValueModel, HaltModel> {
    match r {
        Ok(v) => Ok(v.model()),
        Err(h) => Err(h.model()),
    }
}

pub open spec fn values_outcome(r: Result<Vec<Value>, Halt>) -> Result<Seq<ValueModel>, HaltModel> {
    match r {
        Ok(v) => Ok(crate::ast::values_model(v@)),
        Err(h) => Err(h.model()),
    }
}

pub open spec fn unit_outcome(r: Result<(), Halt>) -> Result<(), HaltModel> {
    match r {
        Ok(_) => Ok(()),
        Err(h) => Err(h.model()),
    }
}

pub proof fn lemma_exprs_model(s: Seq<Expr>)
    ensures
        exprs_model(s).len() == s.len(),
        forall|i: int| 0 <= i < s.len() ==> #[trigger] exprs_model(s)[i] == s[i].model(),
    decreases s.len(),
{
    if s.len() > 0 {
        lemma_exprs_model(s.drop_last());
        assert forall|i: int| 0 <= i < s.len() implies #[trigger] exprs_model(s)[i]
            == s[i].model() by {
            if i < s.len() - 1 {
                assert(s.drop_last()[i] == s[i]);
            }
        }
    }
}

pub proof fn lemma_stmts_model(s: Seq<ASTNode>)
    ensures
        stmts_model(s).len() == s.len(),
        forall|i: int| 0 <= i < s.len() ==> #[trigger] stmts_model(s)[i] == s[i].model(),
    decreases s.len(),
{
    if s.len() > 0 {
        lemma_stmts_model(s.drop_last());
        assert forall|i: int| 0 <= i < s.len() implies #[trigger] stmts_model(s)[i]
            == s[i].model() by {
            if i < s.len() - 1 {
                assert(s.drop_last()[i] == s[i]);
            }
        }
    }
}

pub proof fn lemma_values_model(s: Seq<Value>)
    ensures
        crate::ast::values_model(s).len() == s.len(),
        forall|i: int|
            0 <= i < s.len() ==> #[trigger] crate::ast::values_model(s)[i] == s[i].model(),
    decreases s.len(),
{
    if s.len() > 0 {
        lemma_values_model(s.drop_last());
        assert forall|i: int| 0 <= i < s.len() implies #[trigger] crate::ast::values_model(s)[i]
            == s[i].model() by {
            if i < s.len() - 1 {
                assert(s.drop_last()[i] == s[i]);
            }
        }
    }
}

/// Once a prefix of the arguments halts, the rest are not evaluated.
proof fn lemma_eval_args_halt(st: RunState, s: Seq<ExprModel>, k: int, depth: nat)
    requires
        0 <= k <= s.len(),
        eval_args(st, s.take(k), depth).1 is Err,
    ensures
        eval_args(st, s, depth) == eval_args(st, s.take(k), depth),
    decreases s.len(),
{
    if k == s.len() {
        assert(s.take(k) =~= s);
    } else {
        assert(s.drop_last().take(k) =~= s.take(k));
        lemma_eval_args_halt(st, s.drop_last(), k, depth);
    }
}

/// Once a prefix of a block halts, the rest does not run.
proof fn lemma_exec_block_halt(st: RunState, s: Seq<StmtModel>, k: int, depth: nat)
    requires
        0 <= k <= s.len(),
        exec_block(st, s.take(k), depth).1 is Err,
    ensures
        exec_block(st, s, depth) == exec_block(st, s.take(k), depth),
    decreases s.len(),
{
    if k == s.len() {
        assert(s.take(k) =~= s);
    } else {
        assert(s.drop_last().take(k) =~= s.take(k));
        lemma_exec_block_halt(st, s.drop_last(), k, depth);
    }
}

proof fn lemma_exprs_size(s: Seq<ExprModel>, i: int)
    requires
        0 <= i < s.len(),
    ensures
        expr_size(s[i]) < exprs_size(s),
    decreases s.len(),
{
    if i < s.len() - 1 {
        lemma_exprs_size(s.drop_last(), i);
        assert(s.drop_last()[i] == s[i]);
    }
}

proof fn lemma_stmts_size(s: Seq<StmtModel>, i: int)
    requires
        0 <= i < s.len(),
    ensures
        stmt_size(s[i]) < stmts_size(s),
    decreases s.len(),
{
    if i < s.len() - 1 {
        lemma_stmts_size(s.drop_last(), i);
        assert(s.drop_last()[i] == s[i]);
    }
}

proof fn lemma_function_index(f: Seq<(Seq<char>, FunctionModel)>, k: Seq<char>)
    ensures
        match function_index(f, k) {
            Some(i) => 0 <= i < f.len() && f[i].0 == k && function_get(f, k) == Some(f[i].1),
            None => function_get(f, k) is None,
        },
    decreases f.len(),
{
    if f.len() > 0 {
        let g = f.drop_last();
        lemma_function_index(g, k);
        assert(forall|j: int| 0 <= j < g.len() ==> g[j] == f[j]);
    }
}

fn runtime(message: String) -> (r: Halt)
    ensures
        r.model() == fail(message@),
{
    Halt::Fail(Error::Runtime(message))
}

fn text_of(s: &str) -> (r: String)
    ensures
        r@ == s@,
{
    let mut out = String::new();
    append(&mut out, s);
    out
}

/// Whether `op` is the operator `k`.
fn op_is(op: &String, k: &str) -> (r: bool)
    ensures
        r == (op@ == k@),
{
    let chars = crate::text::chars_of(op.as_str());
    crate::text::same_chars(&chars, k)
}

fn checked_number(r: i128) -> (out: Result<Value, Halt>)
    ensures
        value_outcome(out) == checked(r as int),
{
    if -9223372036854775808i128 <= r && r <= 9223372036854775807i128 {
        Ok(Value::Number(r as i64))
    } else {
        Err(runtime(text_of("Arithmetic overflow")))
    }
}

fn invalid(a: &Value, op: &String, b: &Value) -> (r: Halt)
    ensures
        r.model() == invalid_operation(a.model(), op@, b.model()),
{
    let mut m = text_of("Invalid operation for ");
    let ra = a.render();
    append(&mut m, ra.as_str());
    append(&mut m, " and ");
    let rb = b.render();
    append(&mut m, rb.as_str());
    append(&mut m, " with operator ");
    append(&mut m, op.as_str());
    runtime(m)
}

/// The value of `a op b`.
pub fn apply_binary(a: &Value, op: &String, b: &Value) -> (r: Result<Value, Halt>)
    ensures
        value_outcome(r) == binary(a.model(), op@, b.model()),
{
    match (a, b) {
        (Value::Number(x), Value::Number(y)) => {
            let x = *x;
            let y = *y;
            if op_is(op, "+") {
                checked_number(x as i128 + y as i128)
            } else if op_is(op, "-") {
                checked_number(x as i128 - y as i128)
            } else if op_is(op, "*") {
                proof {
                    assert(-9223372036854775808int * 9223372036854775807int <= x * y
                        <= 9223372036854775808int * 9223372036854775808int) by (nonlinear_arith)
                        requires
                            i64::MIN <= x <= i64::MAX,
                            i64::MIN <= y <= i64::MAX,
                    ;
                }
                checked_number(x as i128 * y as i128)
            } else if op_is(op, "/") {
                if y == 0 {
                    Err(runtime(text_of("Division by zero")))
                } else {
                    let ux: u128 = if x < 0 {
                        (-(x as i128)) as u128
                    } else {
                        x as u128
                    };
                    let uy: u128 = if y < 0 {
                        (-(y as i128)) as u128
                    } else {
                        y as u128
                    };
                    let q: u128 = ux / uy;
                    assert(q <= ux) by (nonlinear_arith)
                        requires
                            q == ux / uy,
                            uy >= 1,
                    ;
                    let signed: i128 = if (x < 0) != (y < 0) {
                        -(q as i128)
                    } else {
                        q as i128
                    };
                    checked_number(signed)
                }
            } else if op_is(op, ">") {
                Ok(Value::Boolean(x > y))
            } else if op_is(op, "<") {
                Ok(Value::Boolean(x < y))
            } else if op_is(op, "==") {
                Ok(Value::Boolean(x == y))
            } else {
                Err(invalid(a, op, b))
            }
        },
        (Value::Text(x), Value::Text(y)) => {
            if op_is(op, "+") {
                let mut s = x.clone();
                append(&mut s, y.as_str());
                Ok(Value::Text(s))
            } else {
                Err(invalid(a, op, b))
            }
        },
        _ => Err(invalid(a, op, b)),
    }
}

/// The value of an input line: a number if the trimmed line writes one,
/// else the trimmed text.
pub fn input_line_value(line: &str) -> (r: Value)
    ensures
        r.model() == input_value(line@),
{
    let t = trim(line);
    match parse_int(&t) {
        Some(n) => Value::Number(n),
        None => Value::Text(t),
    }
}

} // verus!

verus! {

pub open spec fn function_model(f: (String, Vec<String>, Vec<ASTNode>)) -> (
    Seq<char>,
    FunctionModel,
) {
    (f.0@, (strings_model(f.1@), stmts_model(f.2@)))
}

/// Runs programs: holds the scope chain, the function table, the lines
/// written, and the input lines supplied for `input` expressions.
pub struct Interpreter {
    pub scope: Scope,
    functions: Vec<(String, Vec<String>, Vec<ASTNode>)>,
    output: Vec<String>,
    input: Vec<String>,
    next_input: usize,
}

impl Interpreter {
    pub closed spec fn wf(&self) -> bool {
        &&& self.scope.wf()
        &&& self.next_input <= self.input@.len()
    }

    /// The state that the semantics speaks of.
    pub closed spec fn state(&self) -> RunState {
        RunState {
            frames: self.scope.model(),
            functions: self.functions@.map_values(
                |f: (String, Vec<String>, Vec<ASTNode>)| function_model(f),
            ),
            output: self.output@.map_values(|s: String| s@),
            input: self.input@.skip(self.next_input as int).map_values(|s: String| s@),
        }
    }

    /// An interpreter with one empty scope, no functions, and no input.
    pub fn new() -> (r: Interpreter)
        ensures
            r.wf(),
            r.state() == (RunState {
                frames: seq![Seq::empty()],
                functions: Seq::empty(),
                output: Seq::empty(),
                input: Seq::empty(),
            }),
    {
        let lines: Vec<String> = Vec::new();
        assert(lines@.map_values(|s: String| s@) =~= Seq::empty());
        Self::with_input(lines)
    }

    /// An interpreter whose `input` expressions read `lines` in order.
    pub fn with_input(lines: Vec<String>) -> (r: Interpreter)
        ensures
            r.wf(),
            r.state() == (RunState {
                frames: seq![Seq::empty()],
                functions: Seq::empty(),
                output: Seq::empty(),
                input: lines@.map_values(|s: String| s@),
            }),
    {
        let r = Interpreter {
            scope: Scope::new(None),
            functions: Vec::new(),
            output: Vec::new(),
            input: lines,
            next_input: 0,
        };
        assert(r.state().functions =~= Seq::empty());
        assert(r.state().output =~= Seq::empty());
        assert(r.input@.skip(0) =~= lines@);
        assert(r.state() =~= RunState {
            frames: seq![Seq::empty()],
            functions: Seq::empty(),
            output: Seq::empty(),
            input: lines@.map_values(|s: String| s@),
        });
        r
    }

    /// The lines written so far: messages, prompts, and the notice of `exit`.
    pub fn output(&self) -> (r: &Vec<String>)
        ensures
            r@.map_values(|s: String| s@) == self.state().output,
    {
        &self.output
    }

    fn write_line(&mut self, line: String)
        requires
            old(self).wf(),
        ensures
            final(self).wf(),
            final(self).state() == (RunState {
                output: old(self).state().output.push(line@),
                ..old(self).state()
            }),
    {
        self.output.push(line);
        assert(self.state().output =~= old(self).state().output.push(line@));
        assert(self.state() =~= RunState {
            output: old(self).state().output.push(line@),
            ..old(self).state()
        });
    }

    /// Shows `prompt` and reads the next input line.
    fn read_input(&mut self, prompt: &String) -> (r: String)
        requires
            old(self).wf(),
        ensures
            final(self).wf(),
            (final(self).state(), r@) == read_line(old(self).state(), prompt@),
    {
        self.write_line(prompt.clone());
        let ghost mid = self.state();
        if self.next_input < self.input.len() {
            let line = self.input[self.next_input].clone();
            self.next_input = self.next_input + 1;
            assert(self.state().input =~= mid.input.drop_first());
            assert(self.state() =~= read_line(old(self).state(), prompt@).0);
            line
        } else {
            assert(mid.input.len() == 0);
            String::new()
        }
    }

    /// The index of the entry for `name` in the function table.
    fn find_function(&self, name: &String) -> (r: Option<usize>)
        ensures
            r is Some <==> function_index(self.state().functions, name@) is Some,
            r is Some ==> function_index(self.state().functions, name@) == Some(r->0 as int)
                && r->0 < self.functions@.len(),
    {
        let ghost fs = self.state().functions;
        let mut j: usize = self.functions.len();
        assert(fs.take(j as int) =~= fs);
        while j > 0
            invariant
                j <= self.functions@.len(),
                fs == self.state().functions,
                function_index(fs, name@) == function_index(fs.take(j as int), name@),
            decreases j,
        {
            assert(fs.take(j as int).drop_last() =~= fs.take(j - 1));
            if self.functions[j - 1].0 == *name {
                return Some(j - 1);
            }
            j = j - 1;
        }
        None
    }

    /// Registers `name`, replacing an earlier function of that name.
    fn define(&mut self, name: String, params: Vec<String>, body: Vec<ASTNode>)
        requires
            old(self).wf(),
        ensures
            final(self).wf(),
            final(self).state() == (RunState {
                functions: function_set(
                    old(self).state().functions,
                    name@,
                    (strings_model(params@), stmts_model(body@)),
                ),
                ..old(self).state()
            }),
    {
        let ghost entry = (name@, (strings_model(params@), stmts_model(body@)));
        let ghost fs = old(self).state().functions;
        match self.find_function(&name) {
            Some(i) => {
                self.functions.set(i, (name, params, body));
                assert(self.state().functions =~= fs.update(i as int, entry));
            },
            None => {
                self.functions.push((name, params, body));
                assert(self.state().functions =~= fs.push(entry));
            },
        }
        assert(self.state() =~= RunState {
            functions: function_set(fs, entry.0, entry.1),
            ..old(self).state()
        });
    }
}

} // verus!

verus! {

/// Runs `stmts` from `st` with the full call depth available.
pub open spec fn run(st: RunState, stmts: Seq<StmtModel>) -> (RunState, Result<(), HaltModel>) {
    exec_block(st, stmts, MAX_CALL_DEPTH as nat)
}

impl Interpreter {
    /// Evaluates an expression; `depth` is how many calls may still nest.
    fn evaluate_expression(&mut self, expr: &Expr, depth: usize) -> (r: Result<Value, Halt>)
        requires
            old(self).wf(),
        ensures
            final(self).wf(),
            (final(self).state(), value_outcome(r)) == eval(
                old(self).state(),
                expr.model(),
                depth as nat,
            ),
            final(self).scope.model().len() == old(self).scope.model().len(),
        decreases depth, expr_size(expr.model()), 0nat,
    {
        match expr {
            Expr::Literal(v) => Ok(v.duplicate()),
            Expr::Variable(name) => match self.scope.get(name.as_str()) {
                Some(v) => Ok(v),
                None => {
                    let mut m = text_of("Undefined variable: ");
                    append(&mut m, name.as_str());
                    Err(runtime(m))
                },
            },
            Expr::BinaryOp(l, op, r) => {
                let a = match self.evaluate_expression(l, depth) {
                    Ok(v) => v,
                    Err(h) => {
                        return Err(h);
                    },
                };
                let b = match self.evaluate_expression(r, depth) {
                    Ok(v) => v,
                    Err(h) => {
                        return Err(h);
                    },
                };
                apply_binary(&a, op, &b)
            },
            Expr::Input(prompt) => {
                let line = self.read_input(prompt);
                Ok(input_line_value(line.as_str()))
            },
            Expr::FunctionCall(name, args) => match self.call_function(name, args, depth) {
                Ok(()) => Ok(Value::Nil),
                Err(h) => Err(h),
            },
        }
    }

    /// Evaluates the arguments from left to right.
    fn evaluate_args(&mut self, args: &Vec<Expr>, depth: usize) -> (r: Result<Vec<Value>, Halt>)
        requires
            old(self).wf(),
        ensures
            final(self).wf(),
            (final(self).state(), values_outcome(r)) == eval_args(
                old(self).state(),
                exprs_model(args@),
                depth as nat,
            ),
            final(self).scope.model().len() == old(self).scope.model().len(),
            r is Ok ==> r->Ok_0@.len() == args@.len(),
        decreases depth, exprs_size(exprs_model(args@)), 1nat,
    {
        let ghost am = exprs_model(args@);
        let ghost st0 = self.state();
        proof {
            lemma_exprs_model(args@);
            assert(am.take(0) =~= Seq::<ExprModel>::empty());
            assert(crate::ast::values_model(Seq::<Value>::empty()) =~= Seq::<ValueModel>::empty());
        }
        let mut vals: Vec<Value> = Vec::new();
        let mut i: usize = 0;
        while i < args.len()
            invariant
                self.wf(),
                i <= args@.len(),
                am == exprs_model(args@),
                am.len() == args@.len(),
                forall|k: int| 0 <= k < args@.len() ==> #[trigger] am[k] == args@[k].model(),
                st0 == old(self).state(),
                eval_args(st0, am.take(i as int), depth as nat) == (
                    self.state(),
                    Ok::<Seq<ValueModel>, HaltModel>(crate::ast::values_model(vals@)),
                ),
                vals@.len() == i,
                self.scope.model().len() == old(self).scope.model().len(),
            decreases args@.len() - i,
        {
            proof {
                lemma_exprs_size(am, i as int);
                assert(am.take(i + 1).drop_last() =~= am.take(i as int));
            }
            let v = match self.evaluate_expression(&args[i], depth) {
                Ok(v) => v,
                Err(h) => {
                    proof {
                        lemma_eval_args_halt(st0, am, i + 1, depth as nat);
                    }
                    return Err(h);
                },
            };
            let ghost before = vals@;
            vals.push(v);
            i = i + 1;
            assert(vals@.drop_last() =~= before);
        }
        assert(am.take(i as int) =~= am);
        Ok(vals)
    }

    /// Calls `name` on `args`: see `call`.
    fn call_function(&mut self, name: &String, args: &Vec<Expr>, depth: usize) -> (r: Result<
        (),
        Halt,
    >)
        requires
            old(self).wf(),
        ensures
            final(self).wf(),
            (final(self).state(), unit_outcome(r)) == call(
                old(self).state(),
                name@,
                exprs_model(args@),
                depth as nat,
            ),
            final(self).scope.model().len() == old(self).scope.model().len(),
        decreases depth, exprs_size(exprs_model(args@)), 2nat,
    {
        proof {
            lemma_exprs_model(args@);
            lemma_function_index(self.state().functions, name@);
        }
        let idx = match self.find_function(name) {
            Some(i) => i,
            None => {
                let mut m = text_of("Function ");
                append(&mut m, name.as_str());
                append(&mut m, " not found");
                return Err(runtime(m));
            },
        };
        let params = duplicate_strings(&self.functions[idx].1);
        let body = duplicate_stmts(&self.functions[idx].2);
        assert(self.state().functions[idx as int] == function_model(self.functions@[idx as int]));
        if params.len() != args.len() {
            let mut m = text_of("Function ");
            append(&mut m, name.as_str());
            append(&mut m, " expected ");
            push_decimal(&mut m, params.len() as u64);
            append(&mut m, " arguments, but got ");
            push_decimal(&mut m, args.len() as u64);
            return Err(runtime(m));
        }
        let vals = match self.evaluate_args(args, depth) {
            Ok(v) => v,
            Err(h) => {
                return Err(h);
            },
        };
        if depth == 0 {
            return Err(runtime(text_of("Maximum call depth exceeded")));
        }
        let ghost s1 = self.state();
        let ghost pm = strings_model(params@);
        let ghost vm = crate::ast::values_model(vals@);
        proof {
            lemma_values_model(vals@);
        }
        self.scope.enter();
        assert(pm.take(0) =~= Seq::<Seq<char>>::empty());
        assert(vm.take(0) =~= Seq::<ValueModel>::empty());
        assert(self.state() =~= RunState {
            frames: s1.frames.push(bind_params(pm.take(0), vm.take(0))),
            ..s1
        });
        let mut k: usize = 0;
        while k < params.len()
            invariant
                self.wf(),
                k <= params@.len(),
                params@.len() == vals@.len(),
                pm == strings_model(params@),
                vm == crate::ast::values_model(vals@),
                vm.len() == vals@.len(),
                forall|j: int| 0 <= j < vals@.len() ==> #[trigger] vm[j] == vals@[j].model(),
                self.state() == (RunState {
                    frames: s1.frames.push(bind_params(pm.take(k as int), vm.take(k as int))),
                    ..s1
                }),
            decreases params@.len() - k,
        {
            let ghost f = bind_params(pm.take(k as int), vm.take(k as int));
            self.scope.set(params[k].clone(), vals[k].duplicate());
            k = k + 1;
            proof {
                assert(pm.take(k as int).drop_last() =~= pm.take(k - 1));
                assert(vm.take(k as int).drop_last() =~= vm.take(k - 1));
                assert(s1.frames.push(f).update(s1.frames.len() as int, frame_set(f, pm[k - 1], vm[k - 1]))
                    =~= s1.frames.push(bind_params(pm.take(k as int), vm.take(k as int))));
            }
            assert(self.state() =~= RunState {
                frames: s1.frames.push(bind_params(pm.take(k as int), vm.take(k as int))),
                ..s1
            });
        }
        assert(pm.take(k as int) =~= pm);
        assert(vm.take(k as int) =~= vm);
        let r = self.execute_block(&body, depth - 1);
        self.scope.leave();
        assert(self.state() =~= RunState { frames: self.state().frames, ..self.state() });
        r
    }

    /// Runs one statement.
    fn execute_statement(&mut self, stmt: &ASTNode, depth: usize) -> (r: Result<(), Halt>)
        requires
            old(self).wf(),
        ensures
            final(self).wf(),
            (final(self).state(), unit_outcome(r)) == exec_stmt(
                old(self).state(),
                stmt.model(),
                depth as nat,
            ),
            final(self).scope.model().len() == old(self).scope.model().len(),
        decreases depth, stmt_size(stmt.model()), 0nat,
    {
        match stmt {
            ASTNode::Program(body) => self.execute_block(body, depth),
            ASTNode::Package(_) => Ok(()),
            ASTNode::Import(_, _) => Ok(()),
            ASTNode::Msg(m) => {
                self.write_line(m.clone());
                Ok(())
            },
            ASTNode::Variable(name, e) => {
                let v = match self.evaluate_expression(e, depth) {
                    Ok(v) => v,
                    Err(h) => {
                        return Err(h);
                    },
                };
                let ghost s1 = self.state();
                self.scope.set(name.clone(), v);
                assert(self.state() =~= RunState {
                    frames: chain_set(s1.frames, name@, v.model()),
                    ..s1
                });
                Ok(())
            },
            ASTNode::If(c, t, f) => {
                let v = match self.evaluate_expression(c, depth) {
                    Ok(v) => v,
                    Err(h) => {
                        return Err(h);
                    },
                };
                let chosen = match v {
                    Value::Boolean(true) => true,
                    _ => false,
                };
                if chosen {
                    self.execute_block(t, depth)
                } else {
                    self.execute_block(f, depth)
                }
            },
            ASTNode::Function(n, p, b) => {
                self.define(n.clone(), duplicate_strings(p), duplicate_stmts(b));
                Ok(())
            },
            ASTNode::FunctionCall(n, args) => self.call_function(n, args, depth),
            ASTNode::Exit => {
                self.write_line(text_of("Exiting program."));
                Err(Halt::Exit)
            },
        }
    }

    /// Runs statements in order, up to the first that halts.
    fn execute_block(&mut self, body: &Vec<ASTNode>, depth: usize) -> (r: Result<(), Halt>)
        requires
            old(self).wf(),
        ensures
            final(self).wf(),
            (final(self).state(), unit_outcome(r)) == exec_block(
                old(self).state(),
                stmts_model(body@),
                depth as nat,
            ),
            final(self).scope.model().len() == old(self).scope.model().len(),
        decreases depth, stmts_size(stmts_model(body@)), 1nat,
    {
        let ghost bm = stmts_model(body@);
        let ghost st0 = self.state();
        proof {
            lemma_stmts_model(body@);
            assert(bm.take(0) =~= Seq::<StmtModel>::empty());
        }
        let mut i: usize = 0;
        while i < body.len()
            invariant
                self.wf(),
                i <= body@.len(),
                bm == stmts_model(body@),
                bm.len() == body@.len(),
                forall|k: int| 0 <= k < body@.len() ==> #[trigger] bm[k] == body@[k].model(),
                st0 == old(self).state(),
                exec_block(st0, bm.take(i as int), depth as nat) == (
                    self.state(),
                    Ok::<(), HaltModel>(()),
                ),
                self.scope.model().len() == old(self).scope.model().len(),
            decreases body@.len() - i,
        {
            proof {
                lemma_stmts_size(bm, i as int);
                assert(bm.take(i + 1).drop_last() =~= bm.take(i as int));
            }
            match self.execute_statement(&body[i], depth) {
                Ok(()) => {},
                Err(h) => {
                    proof {
                        lemma_exec_block_halt(st0, bm, i + 1, depth as nat);
                    }
                    return Err(h);
                },
            }
            i = i + 1;
        }
        assert(bm.take(i as int) =~= bm);
        Ok(())
    }

    /// Runs a program's statements in order. The first runtime error stops
    /// the run and is returned; an `exit` stops it with `Flow::Exited`.
    pub fn interpret(&mut self, stmts: Vec<ASTNode>) -> (r: Result<Flow, Error>)
        requires
            old(self).wf(),
        ensures
            final(self).wf(),
            final(self).state() == run(old(self).state(), stmts_model(stmts@)).0,
            match run(old(self).state(), stmts_model(stmts@)).1 {
                Ok(_) => r == Ok::<Flow, Error>(Flow::Completed),
                Err(HaltModel::Exit) => r == Ok::<Flow, Error>(Flow::Exited),
                Err(HaltModel::Fail(e)) => r is Err && r->Err_0.model() == e,
            },
    {
        match self.execute_block(&stmts, MAX_CALL_DEPTH) {
            Ok(()) => Ok(Flow::Completed),
            Err(Halt::Exit) => Ok(Flow::Exited),
            Err(Halt::Fail(e)) => Err(e),
        }
    }
}

} // verus!
