//! The tree-walking evaluator: a chain of variable frames, a mathematical
//! evaluation function over views, and an executable evaluator proved equal
//! to it.
//!
//! The frame chain is a stack: the bottom frame is the persistent top-level
//! scope of a session, and each function call pushes one child frame that is
//! discarded when the call returns. Name lookup walks the stack from the top;
//! assignment only ever writes the top frame.

use crate::ast::{view_value, AstNode, AstV, Value, ValueV};
use crate::num::{
    num_add, num_div, num_eq, num_ge, num_gt, num_le, num_lt, num_mul, num_sub,
};
use crate::token::{Token, TokenV};
use vstd::prelude::*;

verus! {

/// One frame: name-to-value bindings, later entries shadowing earlier ones.
type Frame = Vec<(String, Value)>;

/// The mapping a frame stands for: later entries win.
pub open spec fn frame_map(s: Seq<(String, Value)>) -> Map<Seq<char>, ValueV>
    decreases s,
{
    if s.len() == 0 {
        Map::empty()
    } else {
        frame_map(s.drop_last()).insert(s.last().0@, view_value(s.last().1))
    }
}

/// Name lookup over a chain of frames, innermost (last) first.
pub open spec fn lookup_frames(fs: Seq<Map<Seq<char>, ValueV>>, name: Seq<char>) -> Option<ValueV>
    decreases fs.len(),
{
    if fs.len() == 0 {
        None
    } else if fs.last().contains_key(name) {
        Some(fs.last()[name])
    } else {
        lookup_frames(fs.drop_last(), name)
    }
}

/// The chain of variable frames of one session. The bottom frame lives for
/// the whole session; a call's child frame sits above its caller's.
pub struct Environment {
    frames: Vec<Frame>,
}

impl View for Environment {
    type V = Seq<Map<Seq<char>, ValueV>>;

    closed spec fn view(&self) -> Seq<Map<Seq<char>, ValueV>> {
        Seq::new(self.frames@.len(), |i: int| frame_map(self.frames@[i]@))
    }
}

impl Environment {
    /// A well-formed chain holds at least its top-level frame.
    pub closed spec fn wf(&self) -> bool {
        self.frames.len() >= 1
    }

    pub proof fn lemma_wf_len(&self)
        ensures
            self.wf() ==> self@.len() >= 1,
    {
    }
}

impl Default for Environment {
    /// A fresh session environment: one empty top-level frame.
    fn default() -> (r: Self)
        ensures
            r.wf(),
            r@ =~= seq![Map::<Seq<char>, ValueV>::empty()],
    {
        let frames: Vec<Frame> = vec![Vec::new()];
        let r = Environment { frames };
        proof {
            assert(r@ =~= seq![Map::<Seq<char>, ValueV>::empty()]);
        }
        r
    }
}

/// What a frame yields for a name, if anything.
pub open spec fn frame_get(m: Map<Seq<char>, ValueV>, name: Seq<char>) -> Option<ValueV> {
    if m.contains_key(name) {
        Some(m[name])
    } else {
        None
    }
}

/// Scan one frame for a name, last binding first.
fn frame_lookup(frame: &Frame, name: &String) -> (r: Option<Value>)
    ensures
        match r {
            Some(v) => frame_get(frame_map(frame@), name@) == Some(view_value(v)),
            None => frame_get(frame_map(frame@), name@) is None,
        },
{
    let mut j: usize = frame.len();
    proof {
        assert(frame@.subrange(0, j as int) =~= frame@);
    }
    while j > 0
        invariant
            j <= frame@.len(),
            frame_get(frame_map(frame@), name@) == frame_get(
                frame_map(frame@.subrange(0, j as int)),
                name@,
            ),
        decreases j,
    {
        j = j - 1;
        if frame[j].0 == *name {
            proof {
                assert(frame@.subrange(0, j + 1 as int).last() == frame@[j as int]);
                assert(frame@.subrange(0, j + 1 as int).drop_last()
                    =~= frame@.subrange(0, j as int));
            }
            return Some(crate::ast::clone_value(&frame[j].1));
        }
        proof {
            assert(frame@.subrange(0, j + 1 as int).last() == frame@[j as int]);
            assert(frame@.subrange(0, j + 1 as int).drop_last() =~= frame@.subrange(0, j as int));
        }
    }
    proof {
        assert(frame@.subrange(0, 0) =~= Seq::<(String, Value)>::empty());
    }
    None
}

/// Resolve a name against the whole chain, innermost frame first.
fn env_lookup(env: &Environment, name: &String) -> (r: Option<Value>)
    ensures
        match r {
            Some(v) => lookup_frames(env@, name@) == Some(view_value(v)),
            None => lookup_frames(env@, name@) is None,
        },
{
    let mut i: usize = env.frames.len();
    proof {
        assert(env@.subrange(0, i as int) =~= env@);
    }
    while i > 0
        invariant
            i <= env.frames@.len(),
            lookup_frames(env@, name@) == lookup_frames(env@.subrange(0, i as int), name@),
        decreases i,
    {
        i = i - 1;
        proof {
            assert(env@.subrange(0, i + 1 as int).last() == env@[i as int]);
            assert(env@.subrange(0, i + 1 as int).drop_last() =~= env@.subrange(0, i as int));
            assert(env@[i as int] == frame_map(env.frames@[i as int]@));
        }
        let found = frame_lookup(&env.frames[i], name);
        if let Some(v) = found {
            return Some(v);
        }
    }
    proof {
        assert(env@.subrange(0, 0) =~= Seq::<Map<Seq<char>, ValueV>>::empty());
    }
    None
}

/// An evaluation failure: a wrong kind of value where an operator or a
/// condition demands another, a call with the wrong number of arguments, an
/// operator token no parse can produce, or a call nest deeper than the
/// evaluator's stack allows.
#[derive(Debug, PartialEq)]
pub enum EvalError {
    /// The condition of an `if` was not a boolean.
    IfCondition { cond: Value },
    /// A guard of a `when` arm was not a boolean.
    GuardCondition { guard: Value },
    /// An arithmetic or ordering operator met an operand that is not a number.
    NumberOperands { left: Value, right: Value },
    /// `and`/`or` met an operand that is not a boolean.
    BoolOperands { left: Value, right: Value },
    /// A call supplied `got` arguments to a function of `want` parameters.
    Arity { want: usize, got: usize },
    /// A `Binary` node carried a token that is no operator.
    InvalidOp { op: Token },
    /// Calls nested deeper than the evaluator's call-depth bound.
    CallDepth,
}

/// The mathematical shape of an evaluation failure.
pub enum EvalErrV {
    IfCondition { cond: ValueV },
    GuardCondition { guard: ValueV },
    NumberOperands { left: ValueV, right: ValueV },
    BoolOperands { left: ValueV, right: ValueV },
    Arity { want: int, got: int },
    InvalidOp { op: TokenV },
    CallDepth,
}

impl View for EvalError {
    type V = EvalErrV;

    open spec fn view(&self) -> EvalErrV {
        match self {
            EvalError::IfCondition { cond } => EvalErrV::IfCondition { cond: cond@ },
            EvalError::GuardCondition { guard } => EvalErrV::GuardCondition { guard: guard@ },
            EvalError::NumberOperands { left, right } => EvalErrV::NumberOperands {
                left: left@,
                right: right@,
            },
            EvalError::BoolOperands { left, right } => EvalErrV::BoolOperands {
                left: left@,
                right: right@,
            },
            EvalError::Arity { want, got } => EvalErrV::Arity {
                want: *want as int,
                got: *got as int,
            },
            EvalError::InvalidOp { op } => EvalErrV::InvalidOp { op: op@ },
            EvalError::CallDepth => EvalErrV::CallDepth,
        }
    }
}

/// The view of an evaluation result.
pub open spec fn view_eval_result(r: Result<Value, EvalError>) -> Result<ValueV, EvalErrV> {
    match r {
        Ok(v) => Ok(v@),
        Err(e) => Err(e@),
    }
}

/// Structural equality of two values, as `==`/`!=` see it: defined between
/// two booleans, two numbers (IEEE-754 equality) or two strings; every other
/// pairing is simply not equal — never an error.
pub open spec fn values_equal(l: ValueV, r: ValueV) -> bool {
    match (l, r) {
        (ValueV::Bool(a), ValueV::Bool(b)) => a == b,
        (ValueV::Number(a), ValueV::Number(b)) => num_eq(a, b),
        (ValueV::Str(a), ValueV::Str(b)) => a == b,
        _ => false,
    }
}

/// Whether a token is one of the four arithmetic operators.
pub open spec fn is_arith_op(op: TokenV) -> bool {
    op == TokenV::Plus || op == TokenV::Minus || op == TokenV::Star || op == TokenV::Slash
}

/// Whether a token is one of the four ordering operators.
pub open spec fn is_cmp_op(op: TokenV) -> bool {
    op == TokenV::Less || op == TokenV::LessEqual || op == TokenV::Greater
        || op == TokenV::GreaterEqual
}

/// The result of an arithmetic or ordering operator on two number bit
/// patterns.
pub open spec fn apply_num_op(op: TokenV, a: u64, b: u64) -> ValueV {
    if op == TokenV::Plus {
        ValueV::Number(num_add(a, b))
    } else if op == TokenV::Minus {
        ValueV::Number(num_sub(a, b))
    } else if op == TokenV::Star {
        ValueV::Number(num_mul(a, b))
    } else if op == TokenV::Slash {
        ValueV::Number(num_div(a, b))
    } else if op == TokenV::Less {
        ValueV::Bool(num_lt(a, b))
    } else if op == TokenV::LessEqual {
        ValueV::Bool(num_le(a, b))
    } else if op == TokenV::Greater {
        ValueV::Bool(num_gt(a, b))
    } else {
        ValueV::Bool(num_ge(a, b))
    }
}

/// What a binary operator yields on two already-evaluated operands.
///
/// `==`/`!=` never fail; the arithmetic and ordering operators demand two
/// numbers; `and`/`or` demand two booleans; any other token is an internal
/// invariant violation, since no parse produces it.
pub open spec fn apply_binary(op: TokenV, l: ValueV, r: ValueV) -> Result<ValueV, EvalErrV> {
    if op == TokenV::EqualEqual {
        Ok(ValueV::Bool(values_equal(l, r)))
    } else if op == TokenV::BangEqual {
        Ok(ValueV::Bool(!values_equal(l, r)))
    } else if is_arith_op(op) || is_cmp_op(op) {
        match (l, r) {
            (ValueV::Number(a), ValueV::Number(b)) => Ok(apply_num_op(op, a, b)),
            _ => Err(EvalErrV::NumberOperands { left: l, right: r }),
        }
    } else if op == TokenV::And || op == TokenV::Or {
        match (l, r) {
            (ValueV::Bool(a), ValueV::Bool(b)) => Ok(
                ValueV::Bool(if op == TokenV::And { a && b } else { a || b }),
            ),
            _ => Err(EvalErrV::BoolOperands { left: l, right: r }),
        }
    } else {
        Err(EvalErrV::InvalidOp { op })
    }
}

/// How many frames of language-level calls may be alive at once; one more
/// call fails with `EvalError::CallDepth` instead of exhausting the machine
/// stack.
pub const MAX_CALL_DEPTH: u64 = 256;

/// Evaluation of one node against a chain of frames: `outer` holds the
/// enclosing frames (read-only for this node), `cur` the frame assignments
/// write. Yields the result and the frame `cur` has become; the enclosing
/// frames never change. `fuel` bounds the depth of language-level calls
/// alone, and every recursion into a subterm keeps it.
pub open spec fn eval(
    fuel: nat,
    outer: Seq<Map<Seq<char>, ValueV>>,
    cur: Map<Seq<char>, ValueV>,
    n: AstV,
) -> (Result<ValueV, EvalErrV>, Map<Seq<char>, ValueV>)
    decreases fuel, n,
{
    match n {
        AstV::Primary(v) => (Ok(v), cur),
        AstV::Variable(name) => (
            Ok(
                match lookup_frames(outer.push(cur), name) {
                    Some(v) => v,
                    None => ValueV::Nil,
                },
            ),
            cur,
        ),
        AstV::Binary { left, op, right } => {
            let (rl, c1) = eval(fuel, outer, cur, *left);
            match rl {
                Err(e) => (Err(e), c1),
                Ok(lv) => {
                    let (rr, c2) = eval(fuel, outer, c1, *right);
                    match rr {
                        Err(e) => (Err(e), c2),
                        Ok(rv) => (apply_binary(op, lv, rv), c2),
                    }
                },
            }
        },
        AstV::Multi(nodes) => eval_multi(fuel, outer, cur, nodes),
        AstV::If { cond, true_, false_ } => {
            let (rc, c1) = eval(fuel, outer, cur, *cond);
            match rc {
                Err(e) => (Err(e), c1),
                Ok(ValueV::Bool(true)) => eval(fuel, outer, c1, *true_),
                Ok(ValueV::Bool(false)) => eval(fuel, outer, c1, *false_),
                Ok(v) => (Err(EvalErrV::IfCondition { cond: v }), c1),
            }
        },
        AstV::When(arms) => eval_when(fuel, outer, cur, arms),
        AstV::Assign { ident, body } => {
            let (r, c1) = eval(fuel, outer, cur, *body);
            match r {
                Err(e) => (Err(e), c1),
                Ok(v) => (Ok(ValueV::Nil), c1.insert(ident, v)),
            }
        },
        AstV::Call { ident, args } => {
            match lookup_frames(outer.push(cur), ident) {
                Some(ValueV::Fn { params, body }) => {
                    if params.len() != args.len() {
                        (
                            Err(
                                EvalErrV::Arity {
                                    want: params.len() as int,
                                    got: args.len() as int,
                                },
                            ),
                            cur,
                        )
                    } else if fuel == 0 {
                        (Err(EvalErrV::CallDepth), cur)
                    } else {
                        let child_outer = outer.push(cur);
                        let (ra, child) = eval_args(
                            (fuel - 1) as nat,
                            child_outer,
                            Map::empty(),
                            params,
                            args,
                        );
                        match ra {
                            Some(e) => (Err(e), cur),
                            None => {
                                let (rb, _done) = eval(
                                    (fuel - 1) as nat,
                                    child_outer,
                                    child,
                                    *body,
                                );
                                (rb, cur)
                            },
                        }
                    }
                },
                _ => (Ok(ValueV::Nil), cur),
            }
        },
    }
}

/// Sequential evaluation: every part runs in order, each seeing the frame the
/// one before left behind; the value is the last part's.
pub open spec fn eval_multi(
    fuel: nat,
    outer: Seq<Map<Seq<char>, ValueV>>,
    cur: Map<Seq<char>, ValueV>,
    nodes: Seq<AstV>,
) -> (Result<ValueV, EvalErrV>, Map<Seq<char>, ValueV>)
    decreases fuel, nodes,
{
    if nodes.len() == 0 {
        (Ok(ValueV::Nil), cur)
    } else {
        let (r, c1) = eval(fuel, outer, cur, nodes[0]);
        match r {
            Err(e) => (Err(e), c1),
            Ok(v) => if nodes.len() == 1 {
                (Ok(v), c1)
            } else {
                eval_multi(fuel, outer, c1, nodes.drop_first())
            },
        }
    }
}

/// Guards run in listed order; the first true one selects its body and the
/// later arms are never touched; a non-boolean guard is a type error; no
/// match yields nil.
pub open spec fn eval_when(
    fuel: nat,
    outer: Seq<Map<Seq<char>, ValueV>>,
    cur: Map<Seq<char>, ValueV>,
    arms: Seq<(AstV, AstV)>,
) -> (Result<ValueV, EvalErrV>, Map<Seq<char>, ValueV>)
    decreases fuel, arms,
{
    if arms.len() == 0 {
        (Ok(ValueV::Nil), cur)
    } else {
        let (rg, c1) = eval(fuel, outer, cur, arms[0].0);
        match rg {
            Err(e) => (Err(e), c1),
            Ok(ValueV::Bool(true)) => eval(fuel, outer, c1, arms[0].1),
            Ok(ValueV::Bool(false)) => eval_when(fuel, outer, c1, arms.drop_first()),
            Ok(g) => (Err(EvalErrV::GuardCondition { guard: g }), c1),
        }
    }
}

/// Argument binding for a call: each argument is evaluated inside the child
/// frame, left to right, and its parameter is bound there at once, so a later
/// argument expression already sees the earlier parameters.
pub open spec fn eval_args(
    fuel: nat,
    outer: Seq<Map<Seq<char>, ValueV>>,
    child: Map<Seq<char>, ValueV>,
    params: Seq<Seq<char>>,
    args: Seq<AstV>,
) -> (Option<EvalErrV>, Map<Seq<char>, ValueV>)
    decreases fuel, args,
{
    if args.len() == 0 {
        (None, child)
    } else {
        let (r, c1) = eval(fuel, outer, child, args[0]);
        match r {
            Err(e) => (Some(e), c1),
            Ok(v) => eval_args(fuel, outer, c1.insert(params[0], v), params.drop_first(),
                args.drop_first()),
        }
    }
}

/// Structural equality of two values, executable side of `values_equal`.
fn exec_values_equal(l: &Value, r: &Value) -> (b: bool)
    ensures
        b == values_equal(l@, r@),
{
    match (l, r) {
        (Value::Bool(a), Value::Bool(b)) => *a == *b,
        (Value::Number(a), Value::Number(b)) => crate::num::exec_num_eq(*a, *b),
        (Value::Str(a), Value::Str(b)) => *a == *b,
        _ => false,
    }
}

/// Apply a binary operator to two already-evaluated operands; executable side
/// of `apply_binary`.
fn exec_apply_binary(op: &Token, l: Value, r: Value) -> (res: Result<Value, EvalError>)
    ensures
        view_eval_result(res) == apply_binary(op@, l@, r@),
{
    match op {
        Token::EqualEqual => Ok(Value::Bool(exec_values_equal(&l, &r))),
        Token::BangEqual => Ok(Value::Bool(!exec_values_equal(&l, &r))),
        Token::Plus | Token::Minus | Token::Star | Token::Slash | Token::Less
            | Token::LessEqual | Token::Greater | Token::GreaterEqual => {
            match (&l, &r) {
                (Value::Number(a), Value::Number(b)) => {
                    let a = *a;
                    let b = *b;
                    match op {
                        Token::Plus => Ok(Value::Number(crate::num::exec_num_add(a, b))),
                        Token::Minus => Ok(Value::Number(crate::num::exec_num_sub(a, b))),
                        Token::Star => Ok(Value::Number(crate::num::exec_num_mul(a, b))),
                        Token::Slash => Ok(Value::Number(crate::num::exec_num_div(a, b))),
                        Token::Less => Ok(Value::Bool(crate::num::exec_num_lt(a, b))),
                        Token::LessEqual => Ok(Value::Bool(crate::num::exec_num_le(a, b))),
                        Token::Greater => Ok(Value::Bool(crate::num::exec_num_gt(a, b))),
                        _ => Ok(Value::Bool(crate::num::exec_num_ge(a, b))),
                    }
                },
                _ => Err(EvalError::NumberOperands { left: l, right: r }),
            }
        },
        Token::And | Token::Or => {
            match (&l, &r) {
                (Value::Bool(a), Value::Bool(b)) => {
                    let v = if matches!(op, Token::And) {
                        *a && *b
                    } else {
                        *a || *b
                    };
                    Ok(Value::Bool(v))
                },
                _ => Err(EvalError::BoolOperands { left: l, right: r }),
            }
        },
        _ => Err(EvalError::InvalidOp { op: op.clone() }),
    }
}

/// Bind a name in the top frame alone, shadowing any earlier binding there
/// and leaving every frame below untouched.
fn env_assign(env: &mut Environment, name: String, v: Value)
    requires
        old(env).wf(),
    ensures
        final(env).wf(),
        final(env)@ =~= old(env)@.drop_last().push(
            old(env)@.last().insert(name@, view_value(v)),
        ),
{
    let ghost old_env = *env;
    let mut top = match env.frames.pop() {
        Some(t) => t,
        None => Vec::new(),
    };
    let ghost top0 = top@;
    top.push((name, v));
    proof {
        assert(top@.drop_last() =~= top0);
    }
    env.frames.push(top);
    proof {
        assert(env@ =~= old_env@.drop_last().push(old_env@.last().insert(name@, view_value(v))));
    }
}

/// Open a fresh, empty child frame on top of the chain.
fn push_frame(env: &mut Environment)
    requires
        old(env).wf(),
    ensures
        final(env).wf(),
        final(env)@ =~= old(env)@.push(Map::empty()),
{
    env.frames.push(Vec::new());
    proof {
        assert(frame_map(Seq::<(String, Value)>::empty()) =~= Map::<Seq<char>, ValueV>::empty());
        assert(env@ =~= old(env)@.push(Map::<Seq<char>, ValueV>::empty()));
    }
}

/// Discard the top frame, exposing the chain below unchanged.
fn pop_frame(env: &mut Environment)
    requires
        old(env).wf(),
        old(env)@.len() >= 2,
    ensures
        final(env).wf(),
        final(env)@ =~= old(env)@.drop_last(),
{
    let _ = env.frames.pop();
    proof {
        assert(env@ =~= old(env)@.drop_last());
    }
}

/// Evaluate one node against the whole frame chain in `env`: the executable
/// side of `eval`, where `env` holds the enclosing frames and, on top, the
/// frame the node may write.
#[verifier::rlimit(50)]
#[verifier::loop_isolation(false)]
fn eval_node(env: &mut Environment, n: &AstNode, fuel: u64) -> (r: Result<Value, EvalError>)
    requires
        old(env).wf(),
    ensures
        final(env).wf(),
        ({
            let (res, cur) = eval(fuel as nat, old(env)@.drop_last(), old(env)@.last(), n@);
            &&& final(env)@ == old(env)@.drop_last().push(cur)
            &&& view_eval_result(r) == res
        }),
    decreases fuel, *n,
{
    let ghost outer = old(env)@.drop_last();
    let ghost cur0 = old(env)@.last();
    proof {
        assert(outer.push(cur0) =~= old(env)@);
    }
    match n {
        AstNode::Primary(v) => {
            proof {
                assert(env@ == outer.push(cur0));
            }
            return Ok(crate::ast::clone_value(v));
        },
        AstNode::Variable(name) => {
            let looked = env_lookup(env, name);
            proof {
                assert(env@ == outer.push(cur0));
            }
            match looked {
                Some(v) => {
                    return Ok(v);
                },
                None => {
                    return Ok(Value::Nil);
                },
            }
        },
        AstNode::Binary { left, op, right } => {
            let rl = eval_node(env, left, fuel);
            proof {
                assert(env@.drop_last() =~= outer);
                assert(env@ =~= outer.push(env@.last()));
            }
            match rl {
                Err(e) => {
                    return Err(e);
                },
                Ok(lv) => {
                    let rr = eval_node(env, right, fuel);
                    proof {
                        assert(env@.drop_last() =~= outer);
                        assert(env@ =~= outer.push(env@.last()));
                    }
                    match rr {
                        Err(e) => {
                            return Err(e);
                        },
                        Ok(rv) => {
                            return exec_apply_binary(op, lv, rv);
                        },
                    }
                },
            }
        },
        AstNode::Multi(nodes) => {
            let ghost nv = crate::ast::view_nodes(nodes@);
            proof {
                crate::ast::lemma_view_nodes(nodes@);
                assert(nv.skip(0) =~= nv);
            }
            let mut i: usize = 0;
            while i < nodes.len()
                invariant
                    env.wf(),
                    i <= nodes@.len(),
                    nodes@.len() > 0 ==> i < nodes@.len(),
                    nv == crate::ast::view_nodes(nodes@),
                    nv.len() == nodes@.len(),
                    forall|k: int| 0 <= k < nodes@.len() ==> nv[k] == crate::ast::view_ast(nodes@[k]),
                    env@.len() >= 1,
                    env@.drop_last() == outer,
                    eval_multi(fuel as nat, outer, cur0, nv) == eval_multi(
                        fuel as nat,
                        outer,
                        env@.last(),
                        nv.skip(i as int),
                    ),
                decreases nodes@.len() - i,
            {
                let r = eval_node(env, &nodes[i], fuel);
                proof {
                    assert(nv.skip(i as int)[0] == nv[i as int]);
                    assert(nv.skip(i as int).drop_first() =~= nv.skip(i as int + 1));
                }
                match r {
                    Err(e) => {
                        return Err(e);
                    },
                    Ok(v) => {
                        if i == nodes.len() - 1 {
                            return Ok(v);
                        }
                    },
                }
                i = i + 1;
            }
            proof {
                assert(nv.skip(0) =~= nv);
                assert(env@ =~= outer.push(cur0));
            }
            return Ok(Value::Nil);
        },
        AstNode::If { cond, true_, false_ } => {
            let rc = eval_node(env, cond, fuel);
            proof {
                assert(env@.drop_last() =~= outer);
                assert(env@ =~= outer.push(env@.last()));
            }
            match rc {
                Err(e) => {
                    return Err(e);
                },
                Ok(Value::Bool(b)) => {
                    if b {
                        return eval_node(env, true_, fuel);
                    } else {
                        return eval_node(env, false_, fuel);
                    }
                },
                Ok(v) => {
                    return Err(EvalError::IfCondition { cond: v });
                },
            }
        },
        AstNode::When(arms) => {
            let ghost av = crate::ast::view_arms(arms@);
            proof {
                crate::ast::lemma_view_arms(arms@);
                assert(av.skip(0) =~= av);
            }
            let mut i: usize = 0;
            while i < arms.len()
                invariant
                    env.wf(),
                    i <= arms@.len(),
                    av == crate::ast::view_arms(arms@),
                    av.len() == arms@.len(),
                    forall|k: int| 0 <= k < arms@.len() ==> av[k] == (
                        crate::ast::view_ast(arms@[k].0),
                        crate::ast::view_ast(arms@[k].1),
                    ),
                    env@.len() >= 1,
                    env@.drop_last() == outer,
                    eval_when(fuel as nat, outer, cur0, av) == eval_when(
                        fuel as nat,
                        outer,
                        env@.last(),
                        av.skip(i as int),
                    ),
                decreases arms@.len() - i,
            {
                let ghost pre_last = env@.last();
                let rg = eval_node(env, &arms[i].0, fuel);
                proof {
                    assert(av.skip(i as int)[0] == av[i as int]);
                    assert(av.skip(i as int).drop_first() =~= av.skip(i as int + 1));
                }
                match rg {
                    Err(e) => {
                        return Err(e);
                    },
                    Ok(Value::Bool(b)) => {
                        if b {
                            let ghost c1 = env@.last();
                            proof {
                                assert(eval_when(fuel as nat, outer, pre_last, av.skip(i as int))
                                    == eval(fuel as nat, outer, c1, av[i as int].1));
                                assert(eval_when(fuel as nat, outer, cur0, av) == eval(
                                    fuel as nat,
                                    outer,
                                    c1,
                                    av[i as int].1,
                                ));
                                assert(env@.drop_last() == outer);
                                assert(env@.last() == c1);
                                assert(av[i as int].1 == crate::ast::view_ast(arms@[i as int].1));
                            }
                            let r2 = eval_node(env, &arms[i].1, fuel);
                            proof {
                                let (bres, bcur) = eval(fuel as nat, outer, c1, av[i as int].1);
                                assert(view_eval_result(r2) == bres);
                                assert(env@ == outer.push(bcur));
                                assert(n@ == AstV::When(av));
                            }
                            return r2;
                        }
                    },
                    Ok(g) => {
                        return Err(EvalError::GuardCondition { guard: g });
                    },
                }
                i = i + 1;
            }
            proof {
                assert(av.skip(arms@.len() as int) =~= Seq::<(AstV, AstV)>::empty());
                assert(env@ =~= outer.push(env@.last()));
            }
            return Ok(Value::Nil);
        },
        AstNode::Assign { ident, body } => {
            let rb = eval_node(env, body, fuel);
            match rb {
                Err(e) => {
                    return Err(e);
                },
                Ok(v) => {
                    env_assign(env, ident.clone(), v);
                    return Ok(Value::Nil);
                },
            }
        },
        AstNode::Call { ident, args } => {
            let looked = env_lookup(env, ident);
            proof {
                assert(env@ == outer.push(cur0));
            }
            match looked {
                Some(Value::Fn { params, body }) => {
                    proof {
                        crate::ast::lemma_view_nodes(args@);
                    }
                    if params.len() != args.len() {
                        return Err(
                            EvalError::Arity { want: params.len(), got: args.len() },
                        );
                    }
                    if fuel == 0 {
                        return Err(EvalError::CallDepth);
                    }
                    let ghost child_outer = old(env)@;
                    let ghost fm1 = (fuel - 1) as nat;
                    let ghost pv = crate::ast::view_names(params@);
                    let ghost av = crate::ast::view_nodes(args@);
                    proof {
                        assert(pv.skip(0) =~= pv);
                        assert(av.skip(0) =~= av);
                    }
                    push_frame(env);
                    proof {
                        assert(env@.drop_last() =~= child_outer);
                    }
                    let mut j: usize = 0;
                    while j < args.len()
                        invariant
                            env.wf(),
                            j <= args@.len(),
                            args@.len() == params@.len(),
                            av == crate::ast::view_nodes(args@),
                            pv == crate::ast::view_names(params@),
                            av.len() == args@.len(),
                            pv.len() == params@.len(),
                            forall|k: int| 0 <= k < args@.len() ==> av[k]
                                == crate::ast::view_ast(args@[k]),
                            env@.len() >= 1,
                            env@.drop_last() == child_outer,
                            eval_args(fm1, child_outer, Map::empty(), pv, av) == eval_args(
                                fm1,
                                child_outer,
                                env@.last(),
                                pv.skip(j as int),
                                av.skip(j as int),
                            ),
                        decreases args@.len() - j,
                    {
                        let ra = eval_node(env, &args[j], fuel - 1);
                        proof {
                            assert(av.skip(j as int)[0] == av[j as int]);
                            assert(av.skip(j as int).drop_first() =~= av.skip(j as int + 1));
                            assert(pv.skip(j as int)[0] == pv[j as int]);
                            assert(pv.skip(j as int).drop_first() =~= pv.skip(j as int + 1));
                        }
                        match ra {
                            Err(e) => {
                                pop_frame(env);
                                proof {
                                    assert(env@ =~= child_outer);
                                    assert(env@ =~= outer.push(cur0));
                                }
                                return Err(e);
                            },
                            Ok(v) => {
                                env_assign(env, params[j].clone(), v);
                            },
                        }
                        j = j + 1;
                    }
                    proof {
                        assert(av.skip(args@.len() as int) =~= Seq::<AstV>::empty());
                        assert(pv.skip(params@.len() as int) =~= Seq::<Seq<char>>::empty());
                    }
                    let rb = eval_node(env, &body, fuel - 1);
                    pop_frame(env);
                    proof {
                        assert(env@ =~= child_outer);
                        assert(env@ =~= outer.push(cur0));
                    }
                    return rb;
                },
                Some(_) => {
                    return Ok(Value::Nil);
                },
                None => {
                    return Ok(Value::Nil);
                },
            }
        },
    }
}

/// Evaluate a syntax tree against the session's frame chain.
///
/// The result and the new top frame are exactly what the mathematical
/// evaluation `eval` yields at the evaluator's call-depth bound; every frame
/// below the top — in particular every frame of an enclosing call — is left
/// untouched.
pub fn interpret(env: &mut Environment, ast: AstNode) -> (r: Result<Value, EvalError>)
    requires
        old(env).wf(),
    ensures
        final(env).wf(),
        final(env)@.len() == old(env)@.len(),
        final(env)@.drop_last() == old(env)@.drop_last(),
        ({
            let (res, cur) = eval(
                MAX_CALL_DEPTH as nat,
                old(env)@.drop_last(),
                old(env)@.last(),
                ast@,
            );
            &&& final(env)@ == old(env)@.drop_last().push(cur)
            &&& view_eval_result(r) == res
        }),
{
    proof {
        old(env).lemma_wf_len();
    }
    eval_node(env, &ast, MAX_CALL_DEPTH)
}


/// Equality never fails: `==` and `!=` are defined for every pair of values,
/// operands of different kinds included — such a pair simply compares
/// unequal, it is no type error.
pub proof fn lemma_equality_total(op: TokenV, l: ValueV, r: ValueV)
    requires
        op == TokenV::EqualEqual || op == TokenV::BangEqual,
    ensures
        apply_binary(op, l, r) is Ok,
        apply_binary(TokenV::EqualEqual, l, r) == Ok::<ValueV, EvalErrV>(
            ValueV::Bool(values_equal(l, r)),
        ),
        apply_binary(TokenV::BangEqual, l, r) == Ok::<ValueV, EvalErrV>(
            ValueV::Bool(!values_equal(l, r)),
        ),
{
}

/// Both operands of every binary operator are evaluated, left then right —
/// `and` and `or` included, which do not short-circuit: the frame a `Binary`
/// node leaves behind is exactly the frame that evaluating its two operands
/// in sequence leaves behind, so the side effects of both operands always
/// occur.
pub proof fn lemma_binary_operands_evaluated(
    fuel: nat,
    outer: Seq<Map<Seq<char>, ValueV>>,
    cur: Map<Seq<char>, ValueV>,
    left: AstV,
    op: TokenV,
    right: AstV,
)
    ensures
        eval(
            fuel,
            outer,
            cur,
            AstV::Binary { left: Box::new(left), op, right: Box::new(right) },
        ).1 == eval_multi(fuel, outer, cur, seq![left, right]).1,
{
    reveal_with_fuel(eval_multi, 3);
    let pair = seq![left, right];
    assert(pair[0] == left);
    assert(pair.drop_first() =~= seq![right]);
    assert(pair.drop_first()[0] == right);
    assert(pair.len() == 2);
    assert(eval_multi(fuel, outer, cur, pair.drop_first()) == eval_multi(
        fuel,
        outer,
        cur,
        seq![right],
    )) by {
        assert(pair.drop_first() == seq![right]);
    }
}

/// A variable that no frame binds evaluates to nil — an unresolved name is
/// not an error.
pub proof fn lemma_unbound_variable_is_nil(
    fuel: nat,
    outer: Seq<Map<Seq<char>, ValueV>>,
    cur: Map<Seq<char>, ValueV>,
    name: Seq<char>,
)
    requires
        lookup_frames(outer.push(cur), name) is None,
    ensures
        eval(fuel, outer, cur, AstV::Variable(name)) == (
            Ok::<ValueV, EvalErrV>(ValueV::Nil),
            cur,
        ),
{
}

/// Calling a name that is not bound to a function yields nil, mirroring the
/// permissive variable lookup — not an error.
pub proof fn lemma_unbound_call_is_nil(
    fuel: nat,
    outer: Seq<Map<Seq<char>, ValueV>>,
    cur: Map<Seq<char>, ValueV>,
    name: Seq<char>,
    args: Seq<AstV>,
)
    requires
        !(lookup_frames(outer.push(cur), name) matches Some(ValueV::Fn { params: _, body: _ })),
    ensures
        eval(fuel, outer, cur, AstV::Call { ident: name, args }) == (
            Ok::<ValueV, EvalErrV>(ValueV::Nil),
            cur,
        ),
{
}

/// A call never changes the caller's frames: whatever the callee assigns
/// lands in the call's own child frame, which dies with the call, so after
/// the call the caller's frame is exactly what it was before.
pub proof fn lemma_call_preserves_frames(
    fuel: nat,
    outer: Seq<Map<Seq<char>, ValueV>>,
    cur: Map<Seq<char>, ValueV>,
    name: Seq<char>,
    args: Seq<AstV>,
)
    ensures
        eval(fuel, outer, cur, AstV::Call { ident: name, args }).1 == cur,
{
}

/// A call whose argument count differs from the function's parameter count
/// fails with an arity error naming both counts, and leaves the frame
/// untouched.
pub proof fn lemma_call_arity(
    fuel: nat,
    outer: Seq<Map<Seq<char>, ValueV>>,
    cur: Map<Seq<char>, ValueV>,
    name: Seq<char>,
    args: Seq<AstV>,
    params: Seq<Seq<char>>,
    body: AstV,
)
    requires
        lookup_frames(outer.push(cur), name) == Some(
            ValueV::Fn { params, body: Box::new(body) },
        ),
        params.len() != args.len(),
    ensures
        eval(fuel, outer, cur, AstV::Call { ident: name, args }) == (
            Err::<ValueV, EvalErrV>(
                EvalErrV::Arity { want: params.len() as int, got: args.len() as int },
            ),
            cur,
        ),
{
}

/// Only the taken branch of an `if` runs: when the condition comes out true,
/// the false branch has no bearing on the result or on any side effect — two
/// conditionals that differ only there evaluate identically.
pub proof fn lemma_if_true_ignores_false_branch(
    fuel: nat,
    outer: Seq<Map<Seq<char>, ValueV>>,
    cur: Map<Seq<char>, ValueV>,
    cond: AstV,
    t: AstV,
    f1: AstV,
    f2: AstV,
)
    requires
        eval(fuel, outer, cur, cond).0 == Ok::<ValueV, EvalErrV>(ValueV::Bool(true)),
    ensures
        eval(
            fuel,
            outer,
            cur,
            AstV::If { cond: Box::new(cond), true_: Box::new(t), false_: Box::new(f1) },
        ) == eval(
            fuel,
            outer,
            cur,
            AstV::If { cond: Box::new(cond), true_: Box::new(t), false_: Box::new(f2) },
        ),
{
}

/// The mirror image: when the condition comes out false, the true branch has
/// no bearing on the result or on any side effect.
pub proof fn lemma_if_false_ignores_true_branch(
    fuel: nat,
    outer: Seq<Map<Seq<char>, ValueV>>,
    cur: Map<Seq<char>, ValueV>,
    cond: AstV,
    t1: AstV,
    t2: AstV,
    f: AstV,
)
    requires
        eval(fuel, outer, cur, cond).0 == Ok::<ValueV, EvalErrV>(ValueV::Bool(false)),
    ensures
        eval(
            fuel,
            outer,
            cur,
            AstV::If { cond: Box::new(cond), true_: Box::new(t1), false_: Box::new(f) },
        ) == eval(
            fuel,
            outer,
            cur,
            AstV::If { cond: Box::new(cond), true_: Box::new(t2), false_: Box::new(f) },
        ),
{
}

/// A `when` short-circuits: once its first guard comes out true, the arms
/// after it have no bearing on the result or on any side effect.
pub proof fn lemma_when_first_true_ignores_rest(
    fuel: nat,
    outer: Seq<Map<Seq<char>, ValueV>>,
    cur: Map<Seq<char>, ValueV>,
    guard: AstV,
    body: AstV,
    rest1: Seq<(AstV, AstV)>,
    rest2: Seq<(AstV, AstV)>,
)
    requires
        eval(fuel, outer, cur, guard).0 == Ok::<ValueV, EvalErrV>(ValueV::Bool(true)),
    ensures
        eval(fuel, outer, cur, AstV::When(seq![(guard, body)] + rest1)) == eval(
            fuel,
            outer,
            cur,
            AstV::When(seq![(guard, body)] + rest2),
        ),
{
    let arms1 = seq![(guard, body)] + rest1;
    let arms2 = seq![(guard, body)] + rest2;
    assert(arms1[0] == (guard, body));
    assert(arms2[0] == (guard, body));
    let c1 = eval(fuel, outer, cur, guard).1;
    assert(eval_when(fuel, outer, cur, arms1) == eval(fuel, outer, c1, body));
    assert(eval_when(fuel, outer, cur, arms2) == eval(fuel, outer, c1, body));
}


} // verus!
