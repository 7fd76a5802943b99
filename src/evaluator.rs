//! The evaluator: walks a syntax tree against an environment, producing a
//! value or a control signal (`return`, `break`, `continue`).
use vstd::prelude::*;

use crate::ast::{copy_strings, node_views, AstNode, AstView};
use crate::builtins::{builtin_table, call_builtin, get_builtins, views, BuiltinError};
use crate::env::Environment;
use crate::object::{names_view, Object, ObjectView};
use crate::operators::{evaluate_index, evaluate_infix, evaluate_prefix, OperatorError};
use crate::output::{clear_output, get_output, OutputBuffer};
use crate::semantics::{
    bind_parameters, ev, ev_args, ev_for, ev_seq, ev_value, ev_while, leak, lift, signal_value, Bindings,
    EvalErrorView, Outcome, Signal,
};
use crate::text::{trim_end, trim_end_text};
use crate::token::Token;

pub use crate::semantics::{MAX_CALL_DEPTH, MAX_ITERATIONS};

verus! {

broadcast use vstd::std_specs::vec::group_vec_axioms;

/// What evaluating a node gives: a value, or a signal that travels up to
/// the enclosing call (`Return`) or loop (`Break`, `Continue`).
#[derive(Debug)]
pub enum EvalResult {
    Value(Object),
    Return(Object),
    Break,
    Continue,
}

/// Why evaluation stopped.
#[derive(Debug)]
pub enum EvalError {
    IdentifierNotFound(String),
    FunctionNotFound(String),
    NotAFunction(String),
    ArityMismatch { name: String, expected: usize, got: usize },
    Builtin(BuiltinError),
    Operator(OperatorError),
    /// A loop ran more than `MAX_ITERATIONS` times.
    LoopLimit,
    /// Calls nested more than `MAX_CALL_DEPTH` deep.
    CallDepthExceeded,
    BreakOutsideLoop,
    ContinueOutsideLoop,
    UnknownPrefixOperator,
}

impl EvalResult {
    pub open spec fn view(&self) -> Signal {
        match self {
            EvalResult::Value(o) => Signal::Value(o@),
            EvalResult::Return(o) => Signal::Return(o@),
            EvalResult::Break => Signal::Break,
            EvalResult::Continue => Signal::Continue,
        }
    }

    /// The value a result carries: `Break` and `Continue` carry `null`.
    pub fn unwrap_value(self) -> (r: Object)
        ensures
            r@ == signal_value(self@),
    {
        match self {
            EvalResult::Value(obj) => obj,
            EvalResult::Return(obj) => obj,
            _ => Object::Null,
        }
    }
}

impl EvalError {
    pub open spec fn view(&self) -> EvalErrorView {
        match self {
            EvalError::IdentifierNotFound(n) => EvalErrorView::IdentifierNotFound(n@),
            EvalError::FunctionNotFound(n) => EvalErrorView::FunctionNotFound(n@),
            EvalError::NotAFunction(n) => EvalErrorView::NotAFunction(n@),
            EvalError::ArityMismatch { name, expected, got } => EvalErrorView::ArityMismatch(
                name@,
                *expected as int,
                *got as int,
            ),
            EvalError::Builtin(e) => EvalErrorView::Builtin(*e),
            EvalError::Operator(e) => EvalErrorView::Operator(*e),
            EvalError::LoopLimit => EvalErrorView::LoopLimit,
            EvalError::CallDepthExceeded => EvalErrorView::CallDepthExceeded,
            EvalError::BreakOutsideLoop => EvalErrorView::BreakOutsideLoop,
            EvalError::ContinueOutsideLoop => EvalErrorView::ContinueOutsideLoop,
            EvalError::UnknownPrefixOperator => EvalErrorView::UnknownPrefixOperator,
        }
    }
}

pub open spec fn signal_of(r: Result<EvalResult, EvalError>) -> Result<Signal, EvalErrorView> {
    match r {
        Ok(s) => Ok(s@),
        Err(e) => Err(e@),
    }
}

pub open spec fn value_result(r: Result<Object, EvalError>) -> Result<ObjectView, EvalErrorView> {
    match r {
        Ok(v) => Ok(v@),
        Err(e) => Err(e@),
    }
}

pub open spec fn values_result(r: Result<Vec<Object>, EvalError>) -> Result<Seq<ObjectView>, EvalErrorView> {
    match r {
        Ok(v) => Ok(views(v@)),
        Err(e) => Err(e@),
    }
}

/// `after` is `before` with the functions of `child` whose names `before`
/// lacks: the rule for leaving a block.
pub open spec fn leaks_functions(
    before: Map<Seq<char>, ObjectView>,
    child: Map<Seq<char>, ObjectView>,
    after: Map<Seq<char>, ObjectView>,
) -> bool {
    &&& forall|k: Seq<char>| #[trigger]
        before.contains_key(k) ==> after.contains_key(k) && after[k] == before[k]
    &&& forall|k: Seq<char>|
        !before.contains_key(k) ==> (#[trigger] after.contains_key(k) <==> (child.contains_key(k)
            && child[k] is Function))
    &&& forall|k: Seq<char>|
        !before.contains_key(k) && #[trigger] after.contains_key(k) ==> after[k] == child[k]
}

/// Copies into `parent` each function bound in `child` under a name that
/// `parent` lacks.
pub fn merge_functions(parent: &mut Environment, child: &Environment)
    requires
        old(parent).wf(),
        child.wf(),
    ensures
        final(parent).wf(),
        leaks_functions(old(parent).view(), child.view(), final(parent).view()),
        final(parent).view() == leak(old(parent).view(), child.view()),
{
    let ghost before = parent.view();
    let mut i: usize = 0;
    while i < child.len()
        invariant
            i <= child.size(),
            parent.wf(),
            child.wf(),
            forall|k: Seq<char>| #[trigger]
                before.contains_key(k) ==> parent.view().contains_key(k) && parent.view()[k]
                    == before[k],
            forall|k: Seq<char>|
                !before.contains_key(k) ==> (#[trigger] parent.view().contains_key(k) <==> exists|j: int|
                    0 <= j < i && #[trigger] child.key_at(j) == k && child.view()[k] is Function),
            forall|k: Seq<char>|
                !before.contains_key(k) && #[trigger] parent.view().contains_key(k) ==> child.view().contains_key(k)
                    && parent.view()[k] == child.view()[k],
        decreases child.size() - i,
    {
        let (name, value) = child.entry(i);
        let is_function = matches!(value, Object::Function { .. });
        if is_function && !parent.contains(name) {
            parent.insert(name.clone(), value.copy());
        }
        proof {
            assert forall|k: Seq<char>|
                !before.contains_key(k) implies (#[trigger] parent.view().contains_key(k) <==> exists|j: int|
                    0 <= j < i + 1 && #[trigger] child.key_at(j) == k && child.view()[k] is Function) by {
                if parent.view().contains_key(k) && k != child.key_at(i as int) {
                    let j = choose|j: int| 0 <= j < i && #[trigger] child.key_at(j) == k && child.view()[k] is Function;
                    assert(0 <= j < i + 1 && child.key_at(j) == k);
                }
                if exists|j: int| 0 <= j < i + 1 && #[trigger] child.key_at(j) == k && child.view()[k] is Function {
                    let j = choose|j: int| 0 <= j < i + 1 && #[trigger] child.key_at(j) == k && child.view()[k] is Function;
                    if j < i {
                        assert(exists|j2: int| 0 <= j2 < i && #[trigger] child.key_at(j2) == k && child.view()[k] is Function);
                    }
                }
            }
        }
        i = i + 1;
    }
    proof {
        assert forall|k: Seq<char>|
            !before.contains_key(k) implies (#[trigger] parent.view().contains_key(k) <==> (child.view().contains_key(k)
                && child.view()[k] is Function)) by {
            child.lemma_key_has_entry(k);
            if child.view().contains_key(k) && child.view()[k] is Function {
                let j = choose|j: int| 0 <= j < child.size() && #[trigger] child.key_at(j) == k;
                assert(child.key_at(j) == k && child.view()[k] is Function);
            }
            if parent.view().contains_key(k) {
                let j = choose|j: int| 0 <= j < i && #[trigger] child.key_at(j) == k && child.view()[k] is Function;
            }
        }
    }
    assert(parent.view() =~= leak(before, child.view()));
}

/// `after` is `before` with the bindings of `table` whose names `before` lacks.
pub open spec fn binds_missing(
    before: Map<Seq<char>, ObjectView>,
    table: Map<Seq<char>, ObjectView>,
    after: Map<Seq<char>, ObjectView>,
) -> bool {
    &&& forall|k: Seq<char>| #[trigger]
        before.contains_key(k) ==> after.contains_key(k) && after[k] == before[k]
    &&& forall|k: Seq<char>|
        !before.contains_key(k) ==> (#[trigger] after.contains_key(k) <==> table.contains_key(k))
    &&& forall|k: Seq<char>|
        !before.contains_key(k) && #[trigger] after.contains_key(k) ==> after[k] == table[k]
}

/// Copies into `env` each binding of `table` under a name that `env` lacks.
pub fn bind_missing(env: &mut Environment, table: &Environment)
    requires
        old(env).wf(),
        table.wf(),
    ensures
        final(env).wf(),
        binds_missing(old(env).view(), table.view(), final(env).view()),
{
    let ghost before = env.view();
    let mut i: usize = 0;
    while i < table.len()
        invariant
            i <= table.size(),
            env.wf(),
            table.wf(),
            forall|k: Seq<char>| #[trigger]
                before.contains_key(k) ==> env.view().contains_key(k) && env.view()[k] == before[k],
            forall|k: Seq<char>|
                !before.contains_key(k) ==> (#[trigger] env.view().contains_key(k) <==> exists|j: int|
                    0 <= j < i && #[trigger] table.key_at(j) == k),
            forall|k: Seq<char>|
                !before.contains_key(k) && #[trigger] env.view().contains_key(k) ==> table.view().contains_key(k)
                    && env.view()[k] == table.view()[k],
        decreases table.size() - i,
    {
        let (name, value) = table.entry(i);
        if !env.contains(name) {
            env.insert(name.clone(), value.copy());
        }
        proof {
            assert forall|k: Seq<char>|
                !before.contains_key(k) implies (#[trigger] env.view().contains_key(k) <==> exists|j: int|
                    0 <= j < i + 1 && #[trigger] table.key_at(j) == k) by {
                if env.view().contains_key(k) && k != table.key_at(i as int) {
                    let j = choose|j: int| 0 <= j < i && #[trigger] table.key_at(j) == k;
                    assert(0 <= j < i + 1 && table.key_at(j) == k);
                }
                if exists|j: int| 0 <= j < i + 1 && #[trigger] table.key_at(j) == k {
                    let j = choose|j: int| 0 <= j < i + 1 && #[trigger] table.key_at(j) == k;
                    if j < i {
                        assert(exists|j2: int| 0 <= j2 < i && #[trigger] table.key_at(j2) == k);
                    }
                }
            }
        }
        i = i + 1;
    }
    proof {
        assert forall|k: Seq<char>|
            !before.contains_key(k) implies (#[trigger] env.view().contains_key(k) <==> table.view().contains_key(k)) by {
            table.lemma_key_has_entry(k);
            if table.view().contains_key(k) {
                let j = choose|j: int| 0 <= j < table.size() && #[trigger] table.key_at(j) == k;
                assert(table.key_at(j) == k);
            }
            if env.view().contains_key(k) {
                let j = choose|j: int| 0 <= j < i && #[trigger] table.key_at(j) == k;
            }
        }
    }
}

/// What a finished program gives back: with printed output, that output
/// without trailing whitespace; else its value, `null` read as the empty
/// string. `break` and `continue` cannot end a program.
pub open spec fn finished(signal: Signal, output: Seq<char>) -> Result<ObjectView, EvalErrorView> {
    match signal {
        Signal::Value(v) => if output.len() > 0 {
            Ok(ObjectView::Str(trim_end_text(output)))
        } else if v is Null {
            Ok(ObjectView::Str(seq![]))
        } else {
            Ok(v)
        },
        Signal::Return(v) => Ok(v),
        Signal::Break => Err(EvalErrorView::BreakOutsideLoop),
        Signal::Continue => Err(EvalErrorView::ContinueOutsideLoop),
    }
}

/// `env` with the bindings of `table` whose names it lacks.
pub open spec fn with_missing(env: Bindings, table: Bindings) -> Bindings {
    Map::new(
        |k: Seq<char>| env.contains_key(k) || table.contains_key(k),
        |k: Seq<char>|
            if env.contains_key(k) {
                env[k]
            } else {
                table[k]
            },
    )
}

/// What `evaluate` gives for a program run against `env`: the result, the
/// bindings after it and the output it wrote.
pub open spec fn program_outcome(n: AstView, env: Bindings) -> Outcome<ObjectView> {
    let (r, e, o) = ev(n, with_missing(env, builtin_table()), seq![], MAX_CALL_DEPTH as nat);
    (
        match r {
            Err(x) => Err(x),
            Ok(s) => finished(s, o),
        },
        e,
        o,
    )
}

/// Turns the signal that ends a program into its result; `break` and
/// `continue` cannot end one.
pub fn finish(signal: EvalResult, out: &OutputBuffer) -> (r: Result<Object, EvalError>)
    ensures
        value_result(r) == finished(signal@, out.view()),
{
    match signal {
        EvalResult::Value(obj) => {
            let output = get_output(out);
            if output.as_str().unicode_len() > 0 {
                Ok(Object::String(trim_end(&output)))
            } else if matches!(obj, Object::Null) {
                Ok(Object::String(String::new()))
            } else {
                Ok(obj)
            }
        },
        EvalResult::Return(obj) => Ok(obj),
        EvalResult::Break => Err(EvalError::BreakOutsideLoop),
        EvalResult::Continue => Err(EvalError::ContinueOutsideLoop),
    }
}

/// Evaluates a program: binds the native functions under the names `env`
/// lacks, starts `out` afresh, runs the program and finishes its result.
pub fn evaluate(node: &AstNode, env: &mut Environment, out: &mut OutputBuffer) -> (r: Result<Object, EvalError>)
    requires
        old(env).wf(),
    ensures
        final(env).wf(),
        (value_result(r), final(env).view(), final(out).view()) == program_outcome(node@, old(env).view()),
{
    clear_output(out);
    let table = get_builtins();
    bind_missing(env, &table);
    assert(env.view() =~= with_missing(old(env).view(), builtin_table()));
    let signal = match evaluate_internal(node, env, out, MAX_CALL_DEPTH) {
        Ok(s) => s,
        Err(e) => {
            return Err(e);
        },
    };
    finish(signal, out)
}

fn operator_error(r: Result<Object, OperatorError>) -> (res: Result<EvalResult, EvalError>)
    ensures
        signal_of(res) == lift(match r {
            Ok(v) => Ok(v@),
            Err(e) => Err(e),
        }),
{
    match r {
        Ok(v) => Ok(EvalResult::Value(v)),
        Err(e) => Err(EvalError::Operator(e)),
    }
}

/// Evaluates `node` and takes the value it carries.
fn eval_value(node: &AstNode, env: &mut Environment, out: &mut OutputBuffer, depth: u64) -> (r: Result<
    Object,
    EvalError,
>)
    requires
        old(env).wf(),
    ensures
        final(env).wf(),
        (value_result(r), final(env).view(), final(out).view()) == ev_value(
            node@,
            old(env).view(),
            old(out).view(),
            depth as nat,
        ),
    decreases depth, *node, 3nat,
{
    match evaluate_internal(node, env, out, depth) {
        Ok(r) => Ok(r.unwrap_value()),
        Err(e) => Err(e),
    }
}

/// Evaluates statements in order, stopping at the first signal.
fn eval_statements(
    node: &AstNode,
    statements: &Vec<AstNode>,
    env: &mut Environment,
    out: &mut OutputBuffer,
    depth: u64,
) -> (r: Result<EvalResult, EvalError>)
    requires
        old(env).wf(),
        forall|i: int| 0 <= i < statements@.len() ==> decreases_to!(*node => statements@[i]),
    ensures
        final(env).wf(),
        (signal_of(r), final(env).view(), final(out).view()) == ev_seq(
            node_views(statements@),
            0,
            old(env).view(),
            old(out).view(),
            depth as nat,
            ObjectView::Null,
        ),
    decreases depth, *node, 0nat,
{
    let ghost s = node_views(statements@);
    let mut result = Object::Null;
    let mut i: usize = 0;
    while i < statements.len()
        invariant
            env.wf(),
            i <= statements@.len(),
            s == node_views(statements@),
            forall|k: int| 0 <= k < statements@.len() ==> decreases_to!(*node => statements@[k]),
            ev_seq(s, 0, old(env).view(), old(out).view(), depth as nat, ObjectView::Null) == ev_seq(
                s,
                i as int,
                env.view(),
                out.view(),
                depth as nat,
                result@,
            ),
        decreases statements@.len() - i,
    {
        assert(decreases_to!(*node => statements@[i as int]));
        assert(s[i as int] == statements@[i as int]@);
        match evaluate_internal(&statements[i], env, out, depth) {
            Ok(EvalResult::Value(obj)) => result = obj,
            Ok(EvalResult::Return(obj)) => return Ok(EvalResult::Return(obj)),
            Ok(EvalResult::Break) => return Ok(EvalResult::Break),
            Ok(EvalResult::Continue) => return Ok(EvalResult::Continue),
            Err(e) => return Err(e),
        }
        i = i + 1;
    }
    Ok(EvalResult::Value(result))
}

/// Evaluates expressions left to right.
fn eval_arguments(
    node: &AstNode,
    arguments: &Vec<AstNode>,
    env: &mut Environment,
    out: &mut OutputBuffer,
    depth: u64,
) -> (r: Result<Vec<Object>, EvalError>)
    requires
        old(env).wf(),
        forall|i: int| 0 <= i < arguments@.len() ==> decreases_to!(*node => arguments@[i]),
    ensures
        final(env).wf(),
        (values_result(r), final(env).view(), final(out).view()) == ev_args(
            node_views(arguments@),
            0,
            old(env).view(),
            old(out).view(),
            depth as nat,
            seq![],
        ),
    decreases depth, *node, 0nat,
{
    let ghost a = node_views(arguments@);
    let mut values: Vec<Object> = Vec::new();
    let mut i: usize = 0;
    assert(views(values@) =~= seq![]);
    while i < arguments.len()
        invariant
            env.wf(),
            i <= arguments@.len(),
            a == node_views(arguments@),
            forall|k: int| 0 <= k < arguments@.len() ==> decreases_to!(*node => arguments@[k]),
            ev_args(a, 0, old(env).view(), old(out).view(), depth as nat, seq![]) == ev_args(
                a,
                i as int,
                env.view(),
                out.view(),
                depth as nat,
                views(values@),
            ),
        decreases arguments@.len() - i,
    {
        assert(decreases_to!(*node => arguments@[i as int]));
        assert(a[i as int] == arguments@[i as int]@);
        let v = match eval_value(&arguments[i], env, out, depth) {
            Ok(v) => v,
            Err(e) => {
                return Err(e);
            },
        };
        let ghost before = views(values@);
        values.push(v);
        assert(views(values@) =~= before.push(v@));
        i = i + 1;
    }
    Ok(values)
}

/// Runs the body of a function in its closure, with the arguments bound to
/// the parameters.
fn call_function(
    node: &AstNode,
    name: &String,
    parameters: Vec<String>,
    body: AstNode,
    closure: Environment,
    arguments: Vec<Object>,
    out: &mut OutputBuffer,
    depth: u64,
) -> (r: Result<EvalResult, EvalError>)
    ensures
        ({
            let params = names_view(parameters@);
            let vals = views(arguments@);
            if depth == 0 {
                signal_of(r) == Err::<Signal, EvalErrorView>(EvalErrorView::CallDepthExceeded)
                    && final(out).view() == old(out).view()
            } else if params.len() != vals.len() {
                signal_of(r) == Err::<Signal, EvalErrorView>(
                    EvalErrorView::ArityMismatch(name@, params.len() as int, vals.len() as int),
                ) && final(out).view() == old(out).view()
            } else {
                let (r2, _, o2) = ev(
                    body@,
                    bind_parameters(closure.view(), params, vals, params.len() as int),
                    old(out).view(),
                    (depth - 1) as nat,
                );
                signal_of(r) == (match r2 {
                    Ok(Signal::Return(v)) => Ok(Signal::Value(v)),
                    other => other,
                }) && final(out).view() == o2
            }
        }),
    decreases depth, *node, 0nat,
{
    if depth == 0 {
        return Err(EvalError::CallDepthExceeded);
    }
    if parameters.len() != arguments.len() {
        return Err(
            EvalError::ArityMismatch {
                name: name.clone(),
                expected: parameters.len(),
                got: arguments.len(),
            },
        );
    }
    let ghost params = names_view(parameters@);
    let ghost vals = views(arguments@);
    let mut scope = closure.copy();
    let mut i: usize = 0;
    while i < parameters.len()
        invariant
            scope.wf(),
            i <= parameters@.len(),
            parameters@.len() == arguments@.len(),
            params == names_view(parameters@),
            vals == views(arguments@),
            scope.view() == bind_parameters(closure.view(), params, vals, i as int),
        decreases parameters@.len() - i,
    {
        scope.insert(parameters[i].clone(), arguments[i].copy());
        i = i + 1;
    }
    match evaluate_internal(&body, &mut scope, out, depth - 1) {
        Ok(EvalResult::Return(obj)) => Ok(EvalResult::Value(obj)),
        other => other,
    }
}

/// Runs a `while` loop.
fn eval_while(
    node: &AstNode,
    condition: &AstNode,
    body: &AstNode,
    env: &mut Environment,
    out: &mut OutputBuffer,
    depth: u64,
) -> (r: Result<EvalResult, EvalError>)
    requires
        old(env).wf(),
        decreases_to!(*node => *condition),
        decreases_to!(*node => *body),
        node@ == AstView::While(Box::new(condition@), Box::new(body@)),
    ensures
        final(env).wf(),
        (signal_of(r), final(env).view(), final(out).view()) == ev_while(
            node@,
            old(env).view(),
            old(out).view(),
            depth as nat,
            0,
            ObjectView::Null,
        ),
    decreases depth, *node, 1nat,
{
    let mut result = Object::Null;
    let mut iterations: u64 = 0;
    loop
        invariant
            env.wf(),
            iterations <= MAX_ITERATIONS,
            decreases_to!(*node => *condition),
            decreases_to!(*node => *body),
            node@ == AstView::While(Box::new(condition@), Box::new(body@)),
            ev_while(node@, old(env).view(), old(out).view(), depth as nat, 0, ObjectView::Null) == ev_while(
                node@,
                env.view(),
                out.view(),
                depth as nat,
                iterations as nat,
                result@,
            ),
        decreases MAX_ITERATIONS - iterations,
    {
        if iterations >= MAX_ITERATIONS {
            return Err(EvalError::LoopLimit);
        }
        let c = match eval_value(condition, env, out, depth) {
            Ok(c) => c,
            Err(e) => {
                return Err(e);
            },
        };
        if !c.is_truthy() {
            return Ok(EvalResult::Value(result));
        }
        match evaluate_internal(body, env, out, depth) {
            Ok(EvalResult::Value(obj)) => result = obj,
            Ok(EvalResult::Return(obj)) => return Ok(EvalResult::Return(obj)),
            Ok(EvalResult::Break) => return Ok(EvalResult::Value(result)),
            Ok(EvalResult::Continue) => {},
            Err(e) => return Err(e),
        }
        iterations = iterations + 1;
    }
}

/// Runs a `for` loop in a scope of its own.
fn eval_for(
    node: &AstNode,
    init: &AstNode,
    condition: &AstNode,
    increment: &AstNode,
    body: &AstNode,
    env: &mut Environment,
    out: &mut OutputBuffer,
    depth: u64,
) -> (r: Result<EvalResult, EvalError>)
    requires
        old(env).wf(),
        decreases_to!(*node => *init),
        decreases_to!(*node => *condition),
        decreases_to!(*node => *increment),
        decreases_to!(*node => *body),
        node@ == AstView::For(Box::new(init@), Box::new(condition@), Box::new(increment@), Box::new(body@)),
    ensures
        final(env).wf(),
        (signal_of(r), final(env).view(), final(out).view()) == ev(
            node@,
            old(env).view(),
            old(out).view(),
            depth as nat,
        ),
    decreases depth, *node, 1nat,
{
    let mut scope = env.copy();
    match evaluate_internal(init, &mut scope, out, depth) {
        Ok(_) => {},
        Err(e) => {
            return Err(e);
        },
    }
    let ghost start_scope = scope.view();
    let ghost start_out = out.view();
    let mut result = Object::Null;
    let mut iterations: u64 = 0;
    loop
        invariant
            scope.wf(),
            env.wf(),
            env.view() == old(env).view(),
            iterations <= MAX_ITERATIONS,
            decreases_to!(*node => *condition),
            decreases_to!(*node => *increment),
            decreases_to!(*node => *body),
            node@ == AstView::For(Box::new(init@), Box::new(condition@), Box::new(increment@), Box::new(body@)),
            ev(init@, old(env).view(), old(out).view(), depth as nat) matches (Ok(_), s0, o0)
                && s0 == start_scope && o0 == start_out,
            ev_for(node@, start_scope, start_out, depth as nat, 0, ObjectView::Null) == ev_for(
                node@,
                scope.view(),
                out.view(),
                depth as nat,
                iterations as nat,
                result@,
            ),
        decreases MAX_ITERATIONS - iterations,
    {
        if iterations >= MAX_ITERATIONS {
            return Err(EvalError::LoopLimit);
        }
        let c = match eval_value(condition, &mut scope, out, depth) {
            Ok(c) => c,
            Err(e) => {
                return Err(e);
            },
        };
        if !c.is_truthy() {
            return Ok(EvalResult::Value(result));
        }
        match evaluate_internal(body, &mut scope, out, depth) {
            Ok(EvalResult::Value(obj)) => result = obj,
            Ok(EvalResult::Return(obj)) => return Ok(EvalResult::Return(obj)),
            Ok(EvalResult::Break) => return Ok(EvalResult::Value(result)),
            Ok(EvalResult::Continue) => {},
            Err(e) => return Err(e),
        }
        match evaluate_internal(increment, &mut scope, out, depth) {
            Ok(_) => {},
            Err(e) => {
                return Err(e);
            },
        }
        iterations = iterations + 1;
    }
}

/// A block: its statements in a copy of the scope; when they run to the
/// end, its functions leak into the scope.
fn eval_block(
    node: &AstNode,
    statements: &Vec<AstNode>,
    env: &mut Environment,
    out: &mut OutputBuffer,
    depth: u64,
) -> (r: Result<EvalResult, EvalError>)
    requires
        old(env).wf(),
        node@ == AstView::Block(node_views(statements@)),
        forall|i: int| 0 <= i < statements@.len() ==> decreases_to!(*node => statements@[i]),
    ensures
        final(env).wf(),
        (signal_of(r), final(env).view(), final(out).view()) == ev(
            node@,
            old(env).view(),
            old(out).view(),
            depth as nat,
        ),
    decreases depth, *node, 1nat,
{
    let mut block_env = env.copy();
    let r = match eval_statements(node, statements, &mut block_env, out, depth) {
        Ok(r) => r,
        Err(e) => {
            return Err(e);
        },
    };
    match r {
        EvalResult::Value(v) => {
            merge_functions(env, &block_env);
            Ok(EvalResult::Value(v))
        },
        other => Ok(other),
    }
}

/// `let name = value`.
fn eval_let(
    node: &AstNode,
    name: &String,
    value: &AstNode,
    env: &mut Environment,
    out: &mut OutputBuffer,
    depth: u64,
) -> (r: Result<EvalResult, EvalError>)
    requires
        old(env).wf(),
        node@ == AstView::Let(name@, Box::new(value@)),
        decreases_to!(*node => *value),
    ensures
        final(env).wf(),
        (signal_of(r), final(env).view(), final(out).view()) == ev(
            node@,
            old(env).view(),
            old(out).view(),
            depth as nat,
        ),
    decreases depth, *node, 1nat,
{
    let v = match eval_value(value, env, out, depth) {
        Ok(v) => v,
        Err(e) => {
            return Err(e);
        },
    };
    env.insert(name.clone(), v);
    Ok(EvalResult::Value(Object::Null))
}

/// `if`, with an optional `else`.
fn eval_if(
    node: &AstNode,
    condition: &AstNode,
    then_branch: &AstNode,
    else_branch: &Option<Box<AstNode>>,
    env: &mut Environment,
    out: &mut OutputBuffer,
    depth: u64,
) -> (r: Result<EvalResult, EvalError>)
    requires
        old(env).wf(),
        node@ == AstView::If(
            Box::new(condition@),
            Box::new(then_branch@),
            match else_branch {
                Some(e) => Some(Box::new((**e)@)),
                None => None,
            },
        ),
        decreases_to!(*node => *condition),
        decreases_to!(*node => *then_branch),
        else_branch matches Some(e) ==> decreases_to!(*node => **e),
    ensures
        final(env).wf(),
        (signal_of(r), final(env).view(), final(out).view()) == ev(
            node@,
            old(env).view(),
            old(out).view(),
            depth as nat,
        ),
    decreases depth, *node, 1nat,
{
    let c = match eval_value(condition, env, out, depth) {
        Ok(c) => c,
        Err(e) => {
            return Err(e);
        },
    };
    if c.is_truthy() {
        evaluate_internal(then_branch, env, out, depth)
    } else {
        match else_branch {
            Some(e) => evaluate_internal(e, env, out, depth),
            None => Ok(EvalResult::Value(Object::Null)),
        }
    }
}

/// A function definition: the function, with a copy of the scope, bound under its name.
fn eval_function_definition(
    node: &AstNode,
    name: &String,
    parameters: &Vec<String>,
    body: &AstNode,
    env: &mut Environment,
    out: &mut OutputBuffer,
    depth: u64,
) -> (r: Result<EvalResult, EvalError>)
    requires
        old(env).wf(),
        node@ == AstView::FunctionDefinition(name@, names_view(parameters@), Box::new(body@)),
    ensures
        final(env).wf(),
        (signal_of(r), final(env).view(), final(out).view()) == ev(
            node@,
            old(env).view(),
            old(out).view(),
            depth as nat,
        ),
    decreases depth, *node, 1nat,
{
    let closure = env.copy();
    let p = copy_strings(parameters);
    let function = Object::Function { parameters: p, body: body.deep_clone(), closure };
    let f = function.copy();
    env.insert(name.clone(), function);
    Ok(EvalResult::Value(f))
}

/// A call of a function or a native function.
fn eval_call(
    node: &AstNode,
    name: &String,
    arguments: &Vec<AstNode>,
    env: &mut Environment,
    out: &mut OutputBuffer,
    depth: u64,
) -> (r: Result<EvalResult, EvalError>)
    requires
        old(env).wf(),
        node@ == AstView::Call(name@, node_views(arguments@)),
        forall|i: int| 0 <= i < arguments@.len() ==> decreases_to!(*node => arguments@[i]),
    ensures
        final(env).wf(),
        (signal_of(r), final(env).view(), final(out).view()) == ev(
            node@,
            old(env).view(),
            old(out).view(),
            depth as nat,
        ),
    decreases depth, *node, 1nat,
{
    let function = match env.get(name) {
        Some(f) => f,
        None => {
            return Err(EvalError::FunctionNotFound(name.clone()));
        },
    };
    let args = match eval_arguments(node, arguments, env, out, depth) {
        Ok(a) => a,
        Err(e) => {
            return Err(e);
        },
    };
    match function {
        Object::Function { parameters, body, closure } => call_function(
            node,
            name,
            parameters,
            body,
            closure,
            args,
            out,
            depth,
        ),
        Object::BuiltinFunction(b) => match call_builtin(b, &args, out) {
            Ok(v) => Ok(EvalResult::Value(v)),
            Err(e) => Err(EvalError::Builtin(e)),
        },
        _ => Err(EvalError::NotAFunction(name.clone())),
    }
}

/// Indexing.
fn eval_index(
    node: &AstNode,
    array: &AstNode,
    index: &AstNode,
    env: &mut Environment,
    out: &mut OutputBuffer,
    depth: u64,
) -> (r: Result<EvalResult, EvalError>)
    requires
        old(env).wf(),
        node@ == AstView::ArrayAccess(Box::new(array@), Box::new(index@)),
        decreases_to!(*node => *array),
        decreases_to!(*node => *index),
    ensures
        final(env).wf(),
        (signal_of(r), final(env).view(), final(out).view()) == ev(
            node@,
            old(env).view(),
            old(out).view(),
            depth as nat,
        ),
    decreases depth, *node, 1nat,
{
    let c = match eval_value(array, env, out, depth) {
        Ok(c) => c,
        Err(e) => {
            return Err(e);
        },
    };
    let i = match eval_value(index, env, out, depth) {
        Ok(i) => i,
        Err(e) => {
            return Err(e);
        },
    };
    operator_error(evaluate_index(&c, &i))
}

/// A prefix operation.
fn eval_prefix(
    node: &AstNode,
    op: &Token,
    right: &AstNode,
    env: &mut Environment,
    out: &mut OutputBuffer,
    depth: u64,
) -> (r: Result<EvalResult, EvalError>)
    requires
        old(env).wf(),
        node@ == AstView::Prefix(op@, Box::new(right@)),
        decreases_to!(*node => *right),
    ensures
        final(env).wf(),
        (signal_of(r), final(env).view(), final(out).view()) == ev(
            node@,
            old(env).view(),
            old(out).view(),
            depth as nat,
        ),
    decreases depth, *node, 1nat,
{
    let v = match eval_value(right, env, out, depth) {
        Ok(v) => v,
        Err(e) => {
            return Err(e);
        },
    };
    if !(matches!(op, Token::Not) || matches!(op, Token::Minus)) {
        return Err(EvalError::UnknownPrefixOperator);
    }
    operator_error(evaluate_prefix(op, &v))
}

/// A binary operation.
fn eval_infix(
    node: &AstNode,
    op: &Token,
    left: &AstNode,
    right: &AstNode,
    env: &mut Environment,
    out: &mut OutputBuffer,
    depth: u64,
) -> (r: Result<EvalResult, EvalError>)
    requires
        old(env).wf(),
        node@ == AstView::Infix(op@, Box::new(left@), Box::new(right@)),
        decreases_to!(*node => *left),
        decreases_to!(*node => *right),
    ensures
        final(env).wf(),
        (signal_of(r), final(env).view(), final(out).view()) == ev(
            node@,
            old(env).view(),
            old(out).view(),
            depth as nat,
        ),
    decreases depth, *node, 1nat,
{
    let l = match eval_value(left, env, out, depth) {
        Ok(l) => l,
        Err(e) => {
            return Err(e);
        },
    };
    let r = match eval_value(right, env, out, depth) {
        Ok(r) => r,
        Err(e) => {
            return Err(e);
        },
    };
    operator_error(evaluate_infix(op, &l, &r))
}

/// Evaluates one node, as `ev` says. `depth` bounds how many calls may
/// still nest.
pub fn evaluate_internal(node: &AstNode, env: &mut Environment, out: &mut OutputBuffer, depth: u64) -> (r:
    Result<EvalResult, EvalError>)
    requires
        old(env).wf(),
    ensures
        final(env).wf(),
        (signal_of(r), final(env).view(), final(out).view()) == ev(
            node@,
            old(env).view(),
            old(out).view(),
            depth as nat,
        ),
    decreases depth, *node, 2nat,
{
    match node {
        AstNode::Program(statements) => {
            assert(forall|i: int| 0 <= i < statements@.len() ==> decreases_to!(*statements => #[trigger] statements@[i]));
            assert(node@->Program_0 =~= node_views(statements@));
            eval_statements(node, statements, env, out, depth)
        },
        AstNode::BlockStatement(statements) => {
            assert(forall|i: int| 0 <= i < statements@.len() ==> decreases_to!(*statements => #[trigger] statements@[i]));
            assert(node@->Block_0 =~= node_views(statements@));
            eval_block(node, statements, env, out, depth)
        },
        AstNode::LetStatement { name, value } => eval_let(node, name, value, env, out, depth),
        AstNode::IfStatement { condition, then_branch, else_branch } => eval_if(
            node,
            condition,
            then_branch,
            else_branch,
            env,
            out,
            depth,
        ),
        AstNode::WhileStatement { condition, body } => eval_while(node, condition, body, env, out, depth),
        AstNode::ForStatement { init, condition, increment, body } => eval_for(
            node,
            init,
            condition,
            increment,
            body,
            env,
            out,
            depth,
        ),
        AstNode::FunctionDefinition { name, parameters, body } => eval_function_definition(
            node,
            name,
            parameters,
            body,
            env,
            out,
            depth,
        ),
        AstNode::FunctionCall { name, arguments } => {
            assert(forall|i: int| 0 <= i < arguments@.len() ==> decreases_to!(*arguments => #[trigger] arguments@[i]));
            assert(node@->Call_1 =~= node_views(arguments@));
            eval_call(node, name, arguments, env, out, depth)
        },
        AstNode::ReturnStatement { value } => match value {
            Some(e) => match eval_value(e, env, out, depth) {
                Ok(v) => Ok(EvalResult::Return(v)),
                Err(x) => Err(x),
            },
            None => Ok(EvalResult::Return(Object::Null)),
        },
        AstNode::BreakStatement => Ok(EvalResult::Break),
        AstNode::ContinueStatement => Ok(EvalResult::Continue),
        AstNode::Array(elements) => {
            assert(forall|i: int| 0 <= i < elements@.len() ==> decreases_to!(*elements => #[trigger] elements@[i]));
            assert(node@->Array_0 =~= node_views(elements@));
            match eval_arguments(node, elements, env, out, depth) {
                Ok(values) => {
                    let ghost vs = values@;
                    let r = Object::Array(values);
                    assert(r@->Array_0 =~= views(vs)) by {
                        assert forall|k: int| 0 <= k < vs.len() implies r@->Array_0[k] == views(vs)[k] by {
                            assert(r@->Array_0[k] == vs[k]@);
                        }
                    }
                    Ok(EvalResult::Value(r))
                },
                Err(e) => Err(e),
            }
        },
        AstNode::ArrayAccess { array, index } => eval_index(node, array, index, env, out, depth),
        AstNode::Identifier(name) => match env.get(name) {
            Some(v) => Ok(EvalResult::Value(v)),
            None => Err(EvalError::IdentifierNotFound(name.clone())),
        },
        AstNode::Number(n) => Ok(EvalResult::Value(Object::Number(*n))),
        AstNode::Boolean(b) => Ok(EvalResult::Value(Object::Boolean(*b))),
        AstNode::String(s) => Ok(EvalResult::Value(Object::String(s.clone()))),
        AstNode::PrefixExpression { op, right } => eval_prefix(node, op, right, env, out, depth),
        AstNode::InfixExpression { op, left, right } => eval_infix(node, op, left, right, env, out, depth),
    }
}


} // verus!
