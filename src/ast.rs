//! Syntax trees and runtime values, with their mathematical models.

use vstd::prelude::*;
use crate::text::{append, int_text, push_int};

verus! {

broadcast use vstd::std_specs::vec::group_vec_axioms;

/// A runtime value. Values are never changed in place: a copy is taken
/// wherever one is stored or read back.
#[derive(Debug, PartialEq)]
pub enum Value {
    Number(i64),
    Text(String),
    Boolean(bool),
    Array(Vec<Value>),
    /// A string-keyed mapping, kept as a list of entries.
    Dict(Vec<(String, Value)>),
    /// The absence of a value.
    Nil,
}

/// The mathematical model of a `Value`.
pub enum ValueModel {
    Number(int),
    Text(Seq<char>),
    Boolean(bool),
    Array(Seq<ValueModel>),
    Dict(Seq<(Seq<char>, ValueModel)>),
    Nil,
}

/// The models of the first `n` values of `v`.
pub open spec fn values_model(s: Seq<Value>) -> Seq<ValueModel>
    decreases s,
{
    if s.len() == 0 {
        Seq::empty()
    } else {
        values_model(s.drop_last()).push(s.last().model())
    }
}

/// The models of the first `n` entries of `v`.
pub open spec fn entries_model(s: Seq<(String, Value)>) -> Seq<(Seq<char>, ValueModel)>
    decreases s,
{
    if s.len() == 0 {
        Seq::empty()
    } else {
        entries_model(s.drop_last()).push((s.last().0@, s.last().1.model()))
    }
}

impl Value {
    pub open spec fn model(&self) -> ValueModel
        decreases *self, 0nat,
    {
        match self {
            Value::Number(n) => ValueModel::Number(*n as int),
            Value::Text(s) => ValueModel::Text(s@),
            Value::Boolean(b) => ValueModel::Boolean(*b),
            Value::Array(v) => ValueModel::Array(values_model(v@)),
            Value::Dict(v) => ValueModel::Dict(entries_model(v@)),
            Value::Nil => ValueModel::Nil,
        }
    }

    /// A copy of this value, equal to it in every part.
    pub fn duplicate(&self) -> (r: Value)
        ensures
            r.model() == self.model(),
        decreases *self,
    {
        match self {
            Value::Number(n) => Value::Number(*n),
            Value::Text(s) => Value::Text(s.clone()),
            Value::Boolean(b) => Value::Boolean(*b),
            Value::Array(v) => {
                let mut out: Vec<Value> = Vec::new();
                let mut i: usize = 0;
                while i < v.len()
                    invariant
                        *self == Value::Array(*v),
                        i <= v@.len(),
                        out@.len() == i,
                        values_model(out@) == values_model(v@.take(i as int)),
                    decreases v@.len() - i,
                {
                    assert(decreases_to!(*self => self->Array_0));
                    assert(decreases_to!(*v => v[i as int]));
                    let item = v[i].duplicate();
                    let ghost before = out@;
                    out.push(item);
                    assert(out@.drop_last() =~= before);
                    i = i + 1;
                    assert(v@.take(i as int).drop_last() =~= v@.take(i - 1));
                }
                assert(v@.take(i as int) =~= v@);
                Value::Array(out)
            },
            Value::Dict(v) => {
                let mut out: Vec<(String, Value)> = Vec::new();
                let mut i: usize = 0;
                while i < v.len()
                    invariant
                        *self == Value::Dict(*v),
                        i <= v@.len(),
                        out@.len() == i,
                        entries_model(out@) == entries_model(v@.take(i as int)),
                    decreases v@.len() - i,
                {
                    assert(decreases_to!(*self => self->Dict_0));
                    assert(decreases_to!(*v => v[i as int]));
                    let item = v[i].1.duplicate();
                    let ghost before = out@;
                    out.push((v[i].0.clone(), item));
                    i = i + 1;
                    assert(out@.drop_last() =~= before);
                    assert(v@.take(i as int).drop_last() =~= v@.take(i - 1));
                }
                assert(v@.take(i as int) =~= v@);
                Value::Dict(out)
            },
            Value::Nil => Value::Nil,
        }
    }
}

} // verus!

verus! {

/// An expression.
#[derive(Debug, PartialEq)]
pub enum Expr {
    Literal(Value),
    Variable(String),
    /// Left operand, operator symbol, right operand.
    BinaryOp(Box<Expr>, String, Box<Expr>),
    /// Reads a line of input after showing the prompt.
    Input(String),
    FunctionCall(String, Vec<Expr>),
}

/// The mathematical model of an `Expr`.
pub enum ExprModel {
    Literal(ValueModel),
    Variable(Seq<char>),
    BinaryOp(Box<ExprModel>, Seq<char>, Box<ExprModel>),
    Input(Seq<char>),
    FunctionCall(Seq<char>, Seq<ExprModel>),
}

/// A statement.
#[derive(Debug, PartialEq)]
pub enum ASTNode {
    Program(Vec<ASTNode>),
    Package(String),
    /// Source package and optional target name.
    Import(String, Option<String>),
    Msg(String),
    /// Assignment of the expression's value to the name.
    Variable(String, Box<Expr>),
    /// Condition, then-branch, else-branch (empty when absent).
    If(Expr, Vec<ASTNode>, Vec<ASTNode>),
    /// Name, parameter names, body.
    Function(String, Vec<String>, Vec<ASTNode>),
    FunctionCall(String, Vec<Expr>),
    Exit,
}

/// The mathematical model of an `ASTNode`.
pub enum StmtModel {
    Program(Seq<StmtModel>),
    Package(Seq<char>),
    Import(Seq<char>, Option<Seq<char>>),
    Msg(Seq<char>),
    Variable(Seq<char>, ExprModel),
    If(ExprModel, Seq<StmtModel>, Seq<StmtModel>),
    Function(Seq<char>, Seq<Seq<char>>, Seq<StmtModel>),
    FunctionCall(Seq<char>, Seq<ExprModel>),
    Exit,
}

pub open spec fn strings_model(s: Seq<String>) -> Seq<Seq<char>> {
    s.map_values(|x: String| x@)
}

pub open spec fn exprs_model(s: Seq<Expr>) -> Seq<ExprModel>
    decreases s,
{
    if s.len() == 0 {
        Seq::empty()
    } else {
        exprs_model(s.drop_last()).push(s.last().model())
    }
}

pub open spec fn stmts_model(s: Seq<ASTNode>) -> Seq<StmtModel>
    decreases s,
{
    if s.len() == 0 {
        Seq::empty()
    } else {
        stmts_model(s.drop_last()).push(s.last().model())
    }
}

pub open spec fn option_model(o: Option<String>) -> Option<Seq<char>> {
    match o {
        Some(s) => Some(s@),
        None => None,
    }
}

impl Expr {
    pub open spec fn model(&self) -> ExprModel
        decreases *self, 0nat,
    {
        match self {
            Expr::Literal(v) => ExprModel::Literal(v.model()),
            Expr::Variable(n) => ExprModel::Variable(n@),
            Expr::BinaryOp(l, op, r) => ExprModel::BinaryOp(
                Box::new(l.model()),
                op@,
                Box::new(r.model()),
            ),
            Expr::Input(p) => ExprModel::Input(p@),
            Expr::FunctionCall(n, args) => ExprModel::FunctionCall(n@, exprs_model(args@)),
        }
    }

    /// A copy of this expression, equal to it in every part.
    pub fn duplicate(&self) -> (r: Expr)
        ensures
            r.model() == self.model(),
        decreases *self,
    {
        match self {
            Expr::Literal(v) => Expr::Literal(v.duplicate()),
            Expr::Variable(n) => Expr::Variable(n.clone()),
            Expr::BinaryOp(l, op, r) => {
                let left = l.duplicate();
                let right = r.duplicate();
                Expr::BinaryOp(Box::new(left), op.clone(), Box::new(right))
            },
            Expr::Input(p) => Expr::Input(p.clone()),
            Expr::FunctionCall(n, args) => {
                assert(decreases_to!(*self => self->FunctionCall_1));
                Expr::FunctionCall(n.clone(), duplicate_exprs(args))
            },
        }
    }
}

/// Copies of the expressions of `v`, in order.
pub fn duplicate_exprs(v: &Vec<Expr>) -> (r: Vec<Expr>)
    ensures
        exprs_model(r@) == exprs_model(v@),
    decreases *v,
{
    let mut out: Vec<Expr> = Vec::new();
    let mut i: usize = 0;
    while i < v.len()
        invariant
            i <= v@.len(),
            out@.len() == i,
            exprs_model(out@) == exprs_model(v@.take(i as int)),
        decreases v@.len() - i,
    {
        assert(decreases_to!(*v => v[i as int]));
        let item = v[i].duplicate();
        let ghost before = out@;
        out.push(item);
        i = i + 1;
        assert(out@.drop_last() =~= before);
        assert(v@.take(i as int).drop_last() =~= v@.take(i - 1));
    }
    assert(v@.take(i as int) =~= v@);
    out
}

/// Copies of the strings of `v`, in order.
pub fn duplicate_strings(v: &Vec<String>) -> (r: Vec<String>)
    ensures
        strings_model(r@) == strings_model(v@),
{
    let mut out: Vec<String> = Vec::new();
    let mut i: usize = 0;
    while i < v.len()
        invariant
            i <= v@.len(),
            out@.len() == i,
            forall|j: int| 0 <= j < i ==> out@[j]@ == v@[j]@,
        decreases v@.len() - i,
    {
        out.push(v[i].clone());
        i = i + 1;
    }
    assert(strings_model(out@) =~= strings_model(v@));
    out
}

impl ASTNode {
    pub open spec fn model(&self) -> StmtModel
        decreases *self, 0nat,
    {
        match self {
            ASTNode::Program(b) => StmtModel::Program(stmts_model(b@)),
            ASTNode::Package(n) => StmtModel::Package(n@),
            ASTNode::Import(f, t) => StmtModel::Import(f@, option_model(*t)),
            ASTNode::Msg(m) => StmtModel::Msg(m@),
            ASTNode::Variable(n, e) => StmtModel::Variable(n@, e.model()),
            ASTNode::If(c, t, e) => StmtModel::If(c.model(), stmts_model(t@), stmts_model(e@)),
            ASTNode::Function(n, p, b) => StmtModel::Function(
                n@,
                strings_model(p@),
                stmts_model(b@),
            ),
            ASTNode::FunctionCall(n, args) => StmtModel::FunctionCall(n@, exprs_model(args@)),
            ASTNode::Exit => StmtModel::Exit,
        }
    }

    /// A copy of this statement, equal to it in every part.
    pub fn duplicate(&self) -> (r: ASTNode)
        ensures
            r.model() == self.model(),
        decreases *self,
    {
        match self {
            ASTNode::Program(b) => {
                assert(decreases_to!(*self => self->Program_0));
                ASTNode::Program(duplicate_stmts(b))
            },
            ASTNode::Package(n) => ASTNode::Package(n.clone()),
            ASTNode::Import(f, t) => {
                let target = match t {
                    Some(s) => Some(s.clone()),
                    None => None,
                };
                ASTNode::Import(f.clone(), target)
            },
            ASTNode::Msg(m) => ASTNode::Msg(m.clone()),
            ASTNode::Variable(n, e) => ASTNode::Variable(n.clone(), Box::new(e.duplicate())),
            ASTNode::If(c, t, e) => {
                assert(decreases_to!(*self => self->If_1));
                assert(decreases_to!(*self => self->If_2));
                ASTNode::If(c.duplicate(), duplicate_stmts(t), duplicate_stmts(e))
            },
            ASTNode::Function(n, p, b) => {
                assert(decreases_to!(*self => self->Function_2));
                ASTNode::Function(n.clone(), duplicate_strings(p), duplicate_stmts(b))
            },
            ASTNode::FunctionCall(n, args) => ASTNode::FunctionCall(
                n.clone(),
                duplicate_exprs(args),
            ),
            ASTNode::Exit => ASTNode::Exit,
        }
    }
}

/// Copies of the statements of `v`, in order.
pub fn duplicate_stmts(v: &Vec<ASTNode>) -> (r: Vec<ASTNode>)
    ensures
        stmts_model(r@) == stmts_model(v@),
    decreases *v,
{
    let mut out: Vec<ASTNode> = Vec::new();
    let mut i: usize = 0;
    while i < v.len()
        invariant
            i <= v@.len(),
            out@.len() == i,
            stmts_model(out@) == stmts_model(v@.take(i as int)),
        decreases v@.len() - i,
    {
        assert(decreases_to!(*v => v[i as int]));
        let item = v[i].duplicate();
        let ghost before = out@;
        out.push(item);
        i = i + 1;
        assert(out@.drop_last() =~= before);
        assert(v@.take(i as int).drop_last() =~= v@.take(i - 1));
    }
    assert(v@.take(i as int) =~= v@);
    out
}

} // verus!

verus! {

/// How a value is shown: numbers in decimal, text as it is, lists in
/// brackets and mappings in braces, with `, ` between items.
pub open spec fn render(v: ValueModel) -> Seq<char>
    decreases v, 0nat,
{
    match v {
        ValueModel::Number(n) => int_text(n),
        ValueModel::Text(s) => s,
        ValueModel::Boolean(b) => if b {
            "true"@
        } else {
            "false"@
        },
        ValueModel::Array(items) => "["@ + render_items(items) + "]"@,
        ValueModel::Dict(entries) => "{"@ + render_entries(entries) + "}"@,
        ValueModel::Nil => "None"@,
    }
}

pub open spec fn render_items(s: Seq<ValueModel>) -> Seq<char>
    decreases s, 0nat,
{
    if s.len() == 0 {
        Seq::empty()
    } else if s.len() == 1 {
        render(s[0])
    } else {
        render_items(s.drop_last()) + ", "@ + render(s.last())
    }
}

pub open spec fn render_entries(s: Seq<(Seq<char>, ValueModel)>) -> Seq<char>
    decreases s, 0nat,
{
    if s.len() == 0 {
        Seq::empty()
    } else if s.len() == 1 {
        s[0].0 + ": "@ + render(s[0].1)
    } else {
        render_entries(s.drop_last()) + ", "@ + s.last().0 + ": "@ + render(s.last().1)
    }
}

impl Value {
    /// The text of this value, as `render` gives it.
    pub fn render(&self) -> (r: String)
        ensures
            r@ == render(self.model()),
        decreases *self,
    {
        let mut out = String::new();
        match self {
            Value::Number(n) => push_int(&mut out, *n),
            Value::Text(s) => append(&mut out, s.as_str()),
            Value::Boolean(b) => {
                if *b {
                    append(&mut out, "true")
                } else {
                    append(&mut out, "false")
                }
            },
            Value::Array(v) => {
                append(&mut out, "[");
                let mut i: usize = 0;
                while i < v.len()
                    invariant
                        *self == Value::Array(*v),
                        i <= v@.len(),
                        out@ == "["@ + render_items(values_model(v@.take(i as int))),
                    decreases v@.len() - i,
                {
                    assert(decreases_to!(*self => self->Array_0));
                    assert(decreases_to!(*v => v[i as int]));
                    let ghost prev = values_model(v@.take(i as int));
                    if i > 0 {
                        append(&mut out, ", ");
                    }
                    let item = v[i].render();
                    append(&mut out, item.as_str());
                    i = i + 1;
                    assert(v@.take(i as int).drop_last() =~= v@.take(i - 1));
                    let ghost cur = values_model(v@.take(i as int));
                    assert(cur.drop_last() =~= prev);
                    assert(out@ =~= "["@ + render_items(cur));
                }
                assert(v@.take(i as int) =~= v@);
                append(&mut out, "]");
            },
            Value::Dict(v) => {
                append(&mut out, "{");
                let mut i: usize = 0;
                while i < v.len()
                    invariant
                        *self == Value::Dict(*v),
                        i <= v@.len(),
                        out@ == "{"@ + render_entries(entries_model(v@.take(i as int))),
                    decreases v@.len() - i,
                {
                    assert(decreases_to!(*self => self->Dict_0));
                    assert(decreases_to!(*v => v[i as int]));
                    let ghost prev = entries_model(v@.take(i as int));
                    if i > 0 {
                        append(&mut out, ", ");
                    }
                    append(&mut out, v[i].0.as_str());
                    append(&mut out, ": ");
                    let item = v[i].1.render();
                    append(&mut out, item.as_str());
                    i = i + 1;
                    assert(v@.take(i as int).drop_last() =~= v@.take(i - 1));
                    let ghost cur = entries_model(v@.take(i as int));
                    assert(cur.drop_last() =~= prev);
                    assert(out@ =~= "{"@ + render_entries(cur));
                }
                assert(v@.take(i as int) =~= v@);
                append(&mut out, "}");
            },
            Value::Nil => append(&mut out, "None"),
        }
        out
    }
}

} // verus!
