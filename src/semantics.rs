//! What evaluation means: a big-step semantics over the views of syntax
//! trees and values, which the evaluator's contracts follow.
use vstd::prelude::*;

use crate::ast::AstView;
use crate::builtins::{builtin_result, printed, BuiltinError};
use crate::object::{truthy, ObjectView};
use crate::operators::{index_result, infix_result, prefix_result, OperatorError};

verus! {

/// A loop that runs more iterations than this fails.
pub const MAX_ITERATIONS: u64 = 10000;

/// Calls nested deeper than this fail.
pub const MAX_CALL_DEPTH: u64 = 128;

/// What evaluating a node gives, as a view.
pub enum Signal {
    Value(ObjectView),
    Return(ObjectView),
    Break,
    Continue,
}

/// Why evaluation stopped, as a view.
pub enum EvalErrorView {
    IdentifierNotFound(Seq<char>),
    FunctionNotFound(Seq<char>),
    NotAFunction(Seq<char>),
    ArityMismatch(Seq<char>, int, int),
    Builtin(BuiltinError),
    Operator(OperatorError),
    LoopLimit,
    CallDepthExceeded,
    BreakOutsideLoop,
    ContinueOutsideLoop,
    UnknownPrefixOperator,
}

/// Bindings of names to values.
pub type Bindings = Map<Seq<char>, ObjectView>;

/// A result with the bindings and the output after it.
pub type Outcome<T> = (Result<T, EvalErrorView>, Bindings, Seq<char>);

/// The value a signal carries: `Break` and `Continue` carry `null`.
pub open spec fn signal_value(s: Signal) -> ObjectView {
    match s {
        Signal::Value(v) => v,
        Signal::Return(v) => v,
        _ => ObjectView::Null,
    }
}

/// The bindings after a block that ran to its end: those of `before`, and
/// the functions of `child` whose names `before` lacks. A block left by
/// `return`, `break` or `continue` leaves `before` as it was.
pub open spec fn leak(before: Bindings, child: Bindings) -> Bindings {
    Map::new(
        |k: Seq<char>| before.contains_key(k) || (child.contains_key(k) && child[k] is Function),
        |k: Seq<char>|
            if before.contains_key(k) {
                before[k]
            } else {
                child[k]
            },
    )
}

/// `scope` with the first `n` parameters bound to the arguments.
pub open spec fn bind_parameters(scope: Bindings, params: Seq<Seq<char>>, args: Seq<ObjectView>, n: int) -> Bindings
    decreases n,
{
    if n <= 0 || n > params.len() || n > args.len() {
        scope
    } else {
        bind_parameters(scope, params, args, n - 1).insert(params[n - 1], args[n - 1])
    }
}

pub open spec fn lift(r: Result<ObjectView, OperatorError>) -> Result<Signal, EvalErrorView> {
    match r {
        Ok(v) => Ok(Signal::Value(v)),
        Err(e) => Err(EvalErrorView::Operator(e)),
    }
}

/// Evaluates `n` and takes the value it carries.
pub open spec fn ev_value(n: AstView, env: Bindings, out: Seq<char>, depth: nat) -> Outcome<ObjectView>
    decreases depth, n, 4nat, 0nat,
{
    let (r, e, o) = ev(n, env, out, depth);
    (
        match r {
            Ok(s) => Ok(signal_value(s)),
            Err(x) => Err(x),
        },
        e,
        o,
    )
}

/// Evaluates the statements from index `i` on; `last` is the value of the
/// one before.
pub open spec fn ev_seq(
    stmts: Seq<AstView>,
    i: int,
    env: Bindings,
    out: Seq<char>,
    depth: nat,
    last: ObjectView,
) -> Outcome<Signal>
    decreases depth, stmts, 1nat, stmts.len() - i,
{
    if i < 0 || i >= stmts.len() {
        (Ok(Signal::Value(last)), env, out)
    } else {
        let (r, e, o) = ev(stmts[i], env, out, depth);
        match r {
            Err(x) => (Err(x), e, o),
            Ok(Signal::Value(v)) => ev_seq(stmts, i + 1, e, o, depth, v),
            Ok(s) => (Ok(s), e, o),
        }
    }
}

/// Evaluates the expressions from index `i` on, left to right, after `acc`.
pub open spec fn ev_args(
    args: Seq<AstView>,
    i: int,
    env: Bindings,
    out: Seq<char>,
    depth: nat,
    acc: Seq<ObjectView>,
) -> Outcome<Seq<ObjectView>>
    decreases depth, args, 1nat, args.len() - i,
{
    if i < 0 || i >= args.len() {
        (Ok(acc), env, out)
    } else {
        let (r, e, o) = ev_value(args[i], env, out, depth);
        match r {
            Err(x) => (Err(x), e, o),
            Ok(v) => ev_args(args, i + 1, e, o, depth, acc.push(v)),
        }
    }
}

/// A `while` loop from its iteration `it`; `last` is the body's last value.
pub open spec fn ev_while(n: AstView, env: Bindings, out: Seq<char>, depth: nat, it: nat, last: ObjectView) -> Outcome<
    Signal,
>
    decreases depth, n, 1nat, MAX_ITERATIONS - it,
{
    match n {
        AstView::While(c, b) => if it >= MAX_ITERATIONS {
            (Err(EvalErrorView::LoopLimit), env, out)
        } else {
            let (r, e, o) = ev_value(*c, env, out, depth);
            match r {
                Err(x) => (Err(x), e, o),
                Ok(cv) => if !truthy(cv) {
                    (Ok(Signal::Value(last)), e, o)
                } else {
                    let (r2, e2, o2) = ev(*b, e, o, depth);
                    match r2 {
                        Err(x) => (Err(x), e2, o2),
                        Ok(Signal::Value(v)) => ev_while(n, e2, o2, depth, it + 1, v),
                        Ok(Signal::Return(v)) => (Ok(Signal::Return(v)), e2, o2),
                        Ok(Signal::Break) => (Ok(Signal::Value(last)), e2, o2),
                        Ok(Signal::Continue) => ev_while(n, e2, o2, depth, it + 1, last),
                    }
                }
            }
        },
        _ => (Ok(Signal::Value(last)), env, out),
    }
}

/// A `for` loop from its iteration `it`, in its own scope.
pub open spec fn ev_for(n: AstView, scope: Bindings, out: Seq<char>, depth: nat, it: nat, last: ObjectView) -> Outcome<
    Signal,
>
    decreases depth, n, 1nat, MAX_ITERATIONS - it,
{
    match n {
        AstView::For(_, c, inc, b) => if it >= MAX_ITERATIONS {
            (Err(EvalErrorView::LoopLimit), scope, out)
        } else {
            let (r, e, o) = ev_value(*c, scope, out, depth);
            match r {
                Err(x) => (Err(x), e, o),
                Ok(cv) => if !truthy(cv) {
                    (Ok(Signal::Value(last)), e, o)
                } else {
                    let (r2, e2, o2) = ev(*b, e, o, depth);
                    match r2 {
                        Err(x) => (Err(x), e2, o2),
                        Ok(Signal::Return(v)) => (Ok(Signal::Return(v)), e2, o2),
                        Ok(Signal::Break) => (Ok(Signal::Value(last)), e2, o2),
                        Ok(s) => {
                            let next_last = match s {
                                Signal::Value(v) => v,
                                _ => last,
                            };
                            let (r3, e3, o3) = ev(*inc, e2, o2, depth);
                            match r3 {
                                Err(x) => (Err(x), e3, o3),
                                Ok(_) => ev_for(n, e3, o3, depth, it + 1, next_last),
                            }
                        },
                    }
                }
            }
        },
        _ => (Ok(Signal::Value(last)), scope, out),
    }
}

/// Evaluates one node against `env`, with `out` written so far; `depth`
/// bounds how many calls may still nest.
pub open spec fn ev(n: AstView, env: Bindings, out: Seq<char>, depth: nat) -> Outcome<Signal>
    decreases depth, n, 3nat, 0nat,
{
    match n {
        AstView::Program(stmts) => ev_seq(stmts, 0, env, out, depth, ObjectView::Null),
        AstView::Block(stmts) => {
            let (r, e, o) = ev_seq(stmts, 0, env, out, depth, ObjectView::Null);
            match r {
                Ok(Signal::Value(v)) => (Ok(Signal::Value(v)), leak(env, e), o),
                Ok(s) => (Ok(s), env, o),
                Err(x) => (Err(x), env, o),
            }
        },
        AstView::Let(name, v) => {
            let (r, e, o) = ev_value(*v, env, out, depth);
            match r {
                Ok(x) => (Ok(Signal::Value(ObjectView::Null)), e.insert(name, x), o),
                Err(x) => (Err(x), e, o),
            }
        },
        AstView::If(c, th, el) => {
            let (r, e, o) = ev_value(*c, env, out, depth);
            match r {
                Err(x) => (Err(x), e, o),
                Ok(cv) => if truthy(cv) {
                    ev(*th, e, o, depth)
                } else {
                    match el {
                        Some(b) => ev(*b, e, o, depth),
                        None => (Ok(Signal::Value(ObjectView::Null)), e, o),
                    }
                },
            }
        },
        AstView::While(_, _) => ev_while(n, env, out, depth, 0, ObjectView::Null),
        AstView::For(init, _, _, _) => {
            let (r, s, o) = ev(*init, env, out, depth);
            match r {
                Err(x) => (Err(x), env, o),
                Ok(_) => {
                    let (r2, _, o2) = ev_for(n, s, o, depth, 0, ObjectView::Null);
                    (r2, env, o2)
                },
            }
        },
        AstView::FunctionDefinition(name, params, body) => {
            let f = ObjectView::Function(params, *body, env);
            (Ok(Signal::Value(f)), env.insert(name, f), out)
        },
        AstView::Call(name, args) => if !env.contains_key(name) {
            (Err(EvalErrorView::FunctionNotFound(name)), env, out)
        } else {
            let f = env[name];
            let (r, e, o) = ev_args(args, 0, env, out, depth, seq![]);
            match r {
                Err(x) => (Err(x), e, o),
                Ok(vals) => match f {
                    ObjectView::Function(params, body, closure) => if depth == 0 {
                        (Err(EvalErrorView::CallDepthExceeded), e, o)
                    } else if params.len() != vals.len() {
                        (Err(EvalErrorView::ArityMismatch(name, params.len() as int, vals.len() as int)), e, o)
                    } else {
                        let (r2, _, o2) = ev(
                            body,
                            bind_parameters(closure, params, vals, params.len() as int),
                            o,
                            (depth - 1) as nat,
                        );
                        (
                            match r2 {
                                Ok(Signal::Return(v)) => Ok(Signal::Value(v)),
                                other => other,
                            },
                            e,
                            o2,
                        )
                    },
                    ObjectView::Builtin(b) => (
                        match builtin_result(b, vals) {
                            Ok(v) => Ok(Signal::Value(v)),
                            Err(x) => Err(EvalErrorView::Builtin(x)),
                        },
                        e,
                        o + printed(b, vals),
                    ),
                    _ => (Err(EvalErrorView::NotAFunction(name)), e, o),
                },
            }
        },
        AstView::Return(v) => match v {
            None => (Ok(Signal::Return(ObjectView::Null)), env, out),
            Some(x) => {
                let (r, e, o) = ev_value(*x, env, out, depth);
                (
                    match r {
                        Ok(y) => Ok(Signal::Return(y)),
                        Err(z) => Err(z),
                    },
                    e,
                    o,
                )
            },
        },
        AstView::Break => (Ok(Signal::Break), env, out),
        AstView::Continue => (Ok(Signal::Continue), env, out),
        AstView::Array(elems) => {
            let (r, e, o) = ev_args(elems, 0, env, out, depth, seq![]);
            (
                match r {
                    Ok(vals) => Ok(Signal::Value(ObjectView::Array(vals))),
                    Err(x) => Err(x),
                },
                e,
                o,
            )
        },
        AstView::ArrayAccess(a, i) => {
            let (r1, e1, o1) = ev_value(*a, env, out, depth);
            match r1 {
                Err(x) => (Err(x), e1, o1),
                Ok(c) => {
                    let (r2, e2, o2) = ev_value(*i, e1, o1, depth);
                    match r2 {
                        Err(x) => (Err(x), e2, o2),
                        Ok(iv) => (lift(index_result(c, iv)), e2, o2),
                    }
                },
            }
        },
        AstView::Identifier(name) => if env.contains_key(name) {
            (Ok(Signal::Value(env[name])), env, out)
        } else {
            (Err(EvalErrorView::IdentifierNotFound(name)), env, out)
        },
        AstView::Number(x) => (Ok(Signal::Value(ObjectView::Number(x))), env, out),
        AstView::Boolean(b) => (Ok(Signal::Value(ObjectView::Boolean(b))), env, out),
        AstView::Str(s) => (Ok(Signal::Value(ObjectView::Str(s))), env, out),
        AstView::Prefix(op, r) => {
            let (r1, e1, o1) = ev_value(*r, env, out, depth);
            match r1 {
                Err(x) => (Err(x), e1, o1),
                Ok(v) => if !(op is Not || op is Minus) {
                    (Err(EvalErrorView::UnknownPrefixOperator), e1, o1)
                } else {
                    (lift(prefix_result(op, v)), e1, o1)
                },
            }
        },
        AstView::Infix(op, l, r) => {
            let (r1, e1, o1) = ev_value(*l, env, out, depth);
            match r1 {
                Err(x) => (Err(x), e1, o1),
                Ok(lv) => {
                    let (r2, e2, o2) = ev_value(*r, e1, o1, depth);
                    match r2 {
                        Err(x) => (Err(x), e2, o2),
                        Ok(rv) => (lift(infix_result(op, lv, rv)), e2, o2),
                    }
                },
            }
        },
    }
}

} // verus!
