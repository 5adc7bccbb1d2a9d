//! The values of the language and the abstract syntax tree, together with
//! their mathematical views.
//!
//! A number value is the bit pattern of an IEEE-754 binary64 value (see
//! `crate::num`); a string value keeps the raw source text of its literal,
//! quotes included.

use crate::token::{Token, TokenV};
use vstd::prelude::*;

verus! {

/// A runtime value: a boolean, a number (as its IEEE-754 binary64 bit
/// pattern), a raw string, a function with its parameter names and body, or
/// nil.
#[derive(Debug, PartialEq)]
pub enum Value {
    Bool(bool),
    Number(u64),
    Str(String),
    Fn { params: Vec<String>, body: Box<AstNode> },
    Nil,
}

/// One node of the syntax tree. Each node owns its children exclusively;
/// `Multi` evaluates its parts in order and yields the last.
#[derive(Debug, PartialEq)]
pub enum AstNode {
    Primary(Value),
    Variable(String),
    Binary { left: Box<AstNode>, op: Token, right: Box<AstNode> },
    Multi(Vec<AstNode>),
    If { cond: Box<AstNode>, true_: Box<AstNode>, false_: Box<AstNode> },
    When(Vec<(AstNode, AstNode)>),
    Assign { ident: String, body: Box<AstNode> },
    Call { ident: String, args: Vec<AstNode> },
}

/// The mathematical shape of a value.
pub enum ValueV {
    Bool(bool),
    Number(u64),
    Str(Seq<char>),
    Fn { params: Seq<Seq<char>>, body: Box<AstV> },
    Nil,
}

/// The mathematical shape of a syntax tree node.
pub enum AstV {
    Primary(ValueV),
    Variable(Seq<char>),
    Binary { left: Box<AstV>, op: TokenV, right: Box<AstV> },
    Multi(Seq<AstV>),
    If { cond: Box<AstV>, true_: Box<AstV>, false_: Box<AstV> },
    When(Seq<(AstV, AstV)>),
    Assign { ident: Seq<char>, body: Box<AstV> },
    Call { ident: Seq<char>, args: Seq<AstV> },
}

/// The views of a sequence of parameter names.
pub open spec fn view_names(s: Seq<String>) -> Seq<Seq<char>> {
    Seq::new(s.len(), |i: int| s[i]@)
}

/// The mathematical shape of a value.
pub open spec fn view_value(v: Value) -> ValueV
    decreases v,
{
    match v {
        Value::Bool(b) => ValueV::Bool(b),
        Value::Number(bits) => ValueV::Number(bits),
        Value::Str(text) => ValueV::Str(text@),
        Value::Fn { params, body } => ValueV::Fn {
            params: view_names(params@),
            body: Box::new(view_ast(*body)),
        },
        Value::Nil => ValueV::Nil,
    }
}

/// The mathematical shape of a node.
pub open spec fn view_ast(n: AstNode) -> AstV
    decreases n,
{
    match n {
        AstNode::Primary(v) => AstV::Primary(view_value(v)),
        AstNode::Variable(name) => AstV::Variable(name@),
        AstNode::Binary { left, op, right } => AstV::Binary {
            left: Box::new(view_ast(*left)),
            op: op@,
            right: Box::new(view_ast(*right)),
        },
        AstNode::Multi(nodes) => AstV::Multi(view_nodes(nodes@)),
        AstNode::If { cond, true_, false_ } => AstV::If {
            cond: Box::new(view_ast(*cond)),
            true_: Box::new(view_ast(*true_)),
            false_: Box::new(view_ast(*false_)),
        },
        AstNode::When(arms) => AstV::When(view_arms(arms@)),
        AstNode::Assign { ident, body } => AstV::Assign {
            ident: ident@,
            body: Box::new(view_ast(*body)),
        },
        AstNode::Call { ident, args } => AstV::Call {
            ident: ident@,
            args: view_nodes(args@),
        },
    }
}

/// The views of a sequence of nodes, pointwise.
pub open spec fn view_nodes(s: Seq<AstNode>) -> Seq<AstV>
    decreases s,
{
    if s.len() == 0 {
        Seq::empty()
    } else {
        view_nodes(s.drop_last()).push(view_ast(s.last()))
    }
}

/// The views of a sequence of guard/body pairs, pointwise.
pub open spec fn view_arms(s: Seq<(AstNode, AstNode)>) -> Seq<(AstV, AstV)>
    decreases s,
{
    if s.len() == 0 {
        Seq::empty()
    } else {
        view_arms(s.drop_last()).push((view_ast(s.last().0), view_ast(s.last().1)))
    }
}

/// `view_nodes` is the pointwise view.
pub broadcast proof fn lemma_view_nodes(s: Seq<AstNode>)
    ensures
        (#[trigger] view_nodes(s)).len() == s.len(),
        forall|i: int| 0 <= i < s.len() ==> view_nodes(s)[i] == view_ast(s[i]),
    decreases s,
{
    if s.len() > 0 {
        lemma_view_nodes(s.drop_last());
    }
}

/// `view_arms` is the pointwise view.
pub broadcast proof fn lemma_view_arms(s: Seq<(AstNode, AstNode)>)
    ensures
        (#[trigger] view_arms(s)).len() == s.len(),
        forall|i: int| 0 <= i < s.len() ==> view_arms(s)[i]
            == (view_ast(s[i].0), view_ast(s[i].1)),
    decreases s,
{
    if s.len() > 0 {
        lemma_view_arms(s.drop_last());
    }
}

impl View for Value {
    type V = ValueV;

    open spec fn view(&self) -> ValueV {
        view_value(*self)
    }
}

impl View for AstNode {
    type V = AstV;

    open spec fn view(&self) -> AstV {
        view_ast(*self)
    }
}

/// Deep copy of a value; the copy has the same view.
pub fn clone_value(v: &Value) -> (res: Value)
    ensures
        res@ == v@,
    decreases *v,
{
    match v {
        Value::Bool(b) => Value::Bool(*b),
        Value::Number(bits) => Value::Number(*bits),
        Value::Str(text) => Value::Str(text.clone()),
        Value::Fn { params, body } => {
            let params2 = clone_names(params);
            let body2 = clone_ast(body);
            Value::Fn { params: params2, body: Box::new(body2) }
        },
        Value::Nil => Value::Nil,
    }
}

/// Deep copy of a node; the copy has the same view.
pub fn clone_ast(n: &AstNode) -> (res: AstNode)
    ensures
        res@ == n@,
    decreases *n,
{
    match n {
        AstNode::Primary(v) => AstNode::Primary(clone_value(v)),
        AstNode::Variable(name) => AstNode::Variable(name.clone()),
        AstNode::Binary { left, op, right } => AstNode::Binary {
            left: Box::new(clone_ast(left)),
            op: op.clone(),
            right: Box::new(clone_ast(right)),
        },
        AstNode::Multi(nodes) => AstNode::Multi(clone_nodes(nodes)),
        AstNode::If { cond, true_, false_ } => AstNode::If {
            cond: Box::new(clone_ast(cond)),
            true_: Box::new(clone_ast(true_)),
            false_: Box::new(clone_ast(false_)),
        },
        AstNode::When(arms) => AstNode::When(clone_arms(arms)),
        AstNode::Assign { ident, body } => AstNode::Assign {
            ident: ident.clone(),
            body: Box::new(clone_ast(body)),
        },
        AstNode::Call { ident, args } => AstNode::Call {
            ident: ident.clone(),
            args: clone_nodes(args),
        },
    }
}

/// Deep copy of a list of parameter names.
fn clone_names(v: &Vec<String>) -> (res: Vec<String>)
    ensures
        view_names(res@) == view_names(v@),
{
    let mut out: Vec<String> = Vec::new();
    let mut i: usize = 0;
    while i < v.len()
        invariant
            i <= v.len(),
            out@.len() == i,
            forall|j: int| 0 <= j < i ==> out@[j]@ == v@[j]@,
        decreases v@.len() - i,
    {
        out.push(v[i].clone());
        i += 1;
    }
    proof {
        assert(view_names(out@) =~= view_names(v@));
    }
    out
}

/// Deep copy of a list of nodes.
fn clone_nodes(v: &Vec<AstNode>) -> (res: Vec<AstNode>)
    ensures
        view_nodes(res@) == view_nodes(v@),
    decreases v@,
{
    let mut out: Vec<AstNode> = Vec::new();
    let mut i: usize = 0;
    while i < v.len()
        invariant
            i <= v.len(),
            out@.len() == i,
            forall|j: int| 0 <= j < i ==> view_ast(out@[j]) == view_ast(v@[j]),
        decreases v@.len() - i,
    {
        out.push(clone_ast(&v[i]));
        i += 1;
    }
    proof {
        lemma_view_nodes(out@);
        lemma_view_nodes(v@);
        assert(view_nodes(out@) =~= view_nodes(v@));
    }
    out
}

/// Deep copy of a list of guard/body pairs.
fn clone_arms(v: &Vec<(AstNode, AstNode)>) -> (res: Vec<(AstNode, AstNode)>)
    ensures
        view_arms(res@) == view_arms(v@),
    decreases v@,
{
    let mut out: Vec<(AstNode, AstNode)> = Vec::new();
    let mut i: usize = 0;
    while i < v.len()
        invariant
            i <= v.len(),
            out@.len() == i,
            forall|j: int| 0 <= j < i ==> view_ast(out@[j].0) == view_ast(v@[j].0)
                && view_ast(out@[j].1) == view_ast(v@[j].1),
        decreases v@.len() - i,
    {
        let arm = (clone_ast(&v[i].0), clone_ast(&v[i].1));
        out.push(arm);
        i += 1;
    }
    proof {
        lemma_view_arms(out@);
        lemma_view_arms(v@);
        assert(view_arms(out@) =~= view_arms(v@));
    }
    out
}

impl Clone for Value {
    /// A clone has the same view as the original, function bodies included.
    fn clone(&self) -> (res: Self)
        ensures
            res@ == self@,
    {
        clone_value(self)
    }
}

impl Clone for AstNode {
    /// A clone has the same view as the original.
    fn clone(&self) -> (res: Self)
        ensures
            res@ == self@,
    {
        clone_ast(self)
    }
}

} // verus!
