//! Properties of the language that hold for every input, proved from the
//! spec functions that the operations' contracts use.
use vstd::prelude::*;

use crate::builtins::{builtin_result, find_from, join_piece, joined, parse_integer, split_pieces};
use crate::lexer::scan_number;
use crate::object::display_text;
use crate::text::{digit_char, digit_value, digits_text, int_text, is_digit};
use crate::object::{Builtin, ObjectView};
use crate::operators::{index_result, number_infix, prefix_result, OperatorError};
use crate::token::TokenView;
use crate::ast::AstView;
use crate::interpreter::run_spec;
use crate::semantics::{ev, ev_seq, ev_value, ev_while, leak, Bindings, EvalErrorView, Signal, MAX_ITERATIONS};

verus! {

/// Division and modulo by zero are errors, whatever the dividend.
pub proof fn law_zero_divisor(l: int)
    ensures
        number_infix(TokenView::Divide, l, 0) == Err::<ObjectView, OperatorError>(OperatorError::DivisionByZero),
        number_infix(TokenView::Modulo, l, 0) == Err::<ObjectView, OperatorError>(OperatorError::ModuloByZero),
{
}

/// Arithmetic never yields a number outside the 64-bit range: every
/// numeric result of a binary or prefix operator fits an `i64`.
pub proof fn law_results_fit(op: TokenView, l: int, r: int)
    ensures
        number_infix(op, l, r) matches Ok(ObjectView::Number(n)) ==> i64::MIN <= n <= i64::MAX,
        prefix_result(op, ObjectView::Number(l)) matches Ok(ObjectView::Number(n)) ==> i64::MIN <= n <= i64::MAX,
{
}

/// An index below zero or past the end of an array or a string is an error
/// that names the index and the length.
pub proof fn law_index_bounds(a: Seq<ObjectView>, s: Seq<char>, n: int)
    requires
        i64::MIN <= n <= i64::MAX,
        a.len() <= usize::MAX,
        s.len() <= usize::MAX,
    ensures
        (n < 0 || n >= a.len()) ==> index_result(ObjectView::Array(a), ObjectView::Number(n))
            == Err::<ObjectView, OperatorError>(
            OperatorError::IndexOutOfBounds { index: n as i64, length: a.len() as usize },
        ),
        (n < 0 || n >= s.len()) ==> index_result(ObjectView::Str(s), ObjectView::Number(n))
            == Err::<ObjectView, OperatorError>(
            OperatorError::IndexOutOfBounds { index: n as i64, length: s.len() as usize },
        ),
        0 <= n < a.len() ==> index_result(ObjectView::Array(a), ObjectView::Number(n)) == Ok::<
            ObjectView,
            OperatorError,
        >(a[n]),
{
}

/// `push` returns the array with the value appended; its argument, which it
/// takes by reference, stays as it was.
pub proof fn law_push_appends(a: Seq<ObjectView>, x: ObjectView)
    ensures
        builtin_result(Builtin::Push, seq![ObjectView::Array(a), x]) == Ok::<ObjectView, crate::builtins::BuiltinError>(
            ObjectView::Array(a.push(x)),
        ),
{
}

/// Running a program is deterministic: `run_program` returns `run_spec` of
/// its source, which depends on the source text alone, so two runs of the
/// same text give the same result.
pub proof fn law_deterministic(a: Seq<char>, b: Seq<char>)
    requires
        a == b,
    ensures
        run_spec(a) == run_spec(b),
{
}

/// Leaving a block keeps every binding of the enclosing scope as it was:
/// the block's own `let`s vanish, and the only new bindings are functions.
/// A block left by `return`, `break` or `continue` adds none.
pub proof fn law_block_scope(stmts: Seq<AstView>, env: Bindings, out: Seq<char>, depth: nat)
    ensures
        ({
            let (r, after, _) = ev(AstView::Block(stmts), env, out, depth);
            &&& (r matches Ok(s) && !(s is Value)) ==> after == env
            &&& forall|k: Seq<char>| #[trigger]
                env.contains_key(k) ==> after.contains_key(k) && after[k] == env[k]
            &&& forall|k: Seq<char>| #[trigger] after.contains_key(k) && !env.contains_key(k) ==> after[k] is Function
        }),
{
}

/// A function holds the bindings of its definition: defining it binds its
/// name to a function whose closure is the scope as it then stood, which
/// later bindings of the same names cannot change.
pub proof fn law_closure_snapshot(
    name: Seq<char>,
    params: Seq<Seq<char>>,
    body: AstView,
    env: Bindings,
    out: Seq<char>,
    depth: nat,
)
    ensures
        ({
            let f = ObjectView::Function(params, body, env);
            ev(AstView::FunctionDefinition(name, params, Box::new(body)), env, out, depth) == (
                Ok::<Signal, EvalErrorView>(Signal::Value(f)),
                env.insert(name, f),
                out,
            )
        }),
{
}

proof fn lemma_spin(env: Bindings, out: Seq<char>, depth: nat, it: nat, last: ObjectView)
    requires
        it <= MAX_ITERATIONS,
    ensures
        ev_while(
            AstView::While(Box::new(AstView::Boolean(true)), Box::new(AstView::Block(seq![]))),
            env,
            out,
            depth,
            it,
            last,
        ) == (Err::<Signal, EvalErrorView>(EvalErrorView::LoopLimit), env, out),
    decreases MAX_ITERATIONS - it,
{
    if it < MAX_ITERATIONS {
        assert(ev(AstView::Boolean(true), env, out, depth) == (
            Ok::<Signal, EvalErrorView>(Signal::Value(ObjectView::Boolean(true))),
            env,
            out,
        ));
        assert(ev_value(AstView::Boolean(true), env, out, depth) == (
            Ok::<ObjectView, EvalErrorView>(ObjectView::Boolean(true)),
            env,
            out,
        ));
        assert(ev_seq(seq![], 0, env, out, depth, ObjectView::Null) == (
            Ok::<Signal, EvalErrorView>(Signal::Value(ObjectView::Null)),
            env,
            out,
        ));
        assert(leak(env, env) =~= env);
        assert(ev(AstView::Block(seq![]), env, out, depth) == (
            Ok::<Signal, EvalErrorView>(Signal::Value(ObjectView::Null)),
            env,
            out,
        ));
        lemma_spin(env, out, depth, it + 1, ObjectView::Null);
    }
}

/// `while (true) {}` stops with the loop-limit error once it has run
/// `MAX_ITERATIONS` times, leaving bindings and output as they were.
pub proof fn law_loop_cap(env: Bindings, out: Seq<char>, depth: nat)
    ensures
        ev(
            AstView::While(Box::new(AstView::Boolean(true)), Box::new(AstView::Block(seq![]))),
            env,
            out,
            depth,
        ) == (Err::<Signal, EvalErrorView>(EvalErrorView::LoopLimit), env, out),
{
    lemma_spin(env, out, depth, 0, ObjectView::Null);
}

/// The value of the digits of `t` from index `i`, read after `v`.
spec fn digits_from(t: Seq<char>, i: int, v: int) -> int
    decreases t.len() - i,
{
    if i < 0 || i >= t.len() {
        v
    } else {
        digits_from(t, i + 1, v * 10 + digit_value(t[i]))
    }
}

proof fn lemma_scan_digits(t: Seq<char>, i: int, v: int)
    requires
        0 <= i <= t.len(),
        forall|k: int| i <= k < t.len() ==> is_digit(#[trigger] t[k]),
    ensures
        scan_number(t, i, false, v, true) == (t.len() as int, digits_from(t, i, v), true),
    decreases t.len() - i,
{
    if i < t.len() {
        lemma_scan_digits(t, i + 1, v * 10 + digit_value(t[i]));
    }
}

proof fn lemma_digits_push(u: Seq<char>, c: char, i: int, v: int)
    requires
        0 <= i <= u.len(),
    ensures
        digits_from(u.push(c), i, v) == digits_from(u, i, v) * 10 + digit_value(c),
    decreases u.len() - i,
{
    if i < u.len() {
        assert(u.push(c)[i] == u[i]);
        lemma_digits_push(u, c, i + 1, v * 10 + digit_value(u[i]));
    } else {
        assert(u.push(c)[i] == c);
        assert(digits_from(u.push(c), i + 1, v * 10 + digit_value(c)) == v * 10 + digit_value(c));
        assert(digits_from(u, i, v) == v);
    }
}

proof fn lemma_digit_char(d: int)
    requires
        0 <= d < 10,
    ensures
        is_digit(digit_char(d)),
        digit_value(digit_char(d)) == d,
{
}

proof fn lemma_digits_text(p: Seq<char>, m: nat)
    ensures
        digits_text(m).len() >= 1,
        forall|k: int| 0 <= k < digits_text(m).len() ==> is_digit(#[trigger] digits_text(m)[k]),
        digits_from(p + digits_text(m), p.len() as int, 0) == m,
    decreases m,
{
    if m < 10 {
        lemma_digit_char(m as int);
        let t = p + digits_text(m);
        assert(t =~= p.push(digit_char(m as int)));
        lemma_digits_push(p, digit_char(m as int), p.len() as int, 0);
    } else {
        lemma_digits_text(p, m / 10);
        lemma_digit_char((m % 10) as int);
        let c = digit_char((m % 10) as int);
        let t = p + digits_text(m);
        assert(t =~= (p + digits_text(m / 10)).push(c));
        lemma_digits_push(p + digits_text(m / 10), c, p.len() as int, 0);
        assert forall|k: int| 0 <= k < digits_text(m).len() implies is_digit(#[trigger] digits_text(m)[k]) by {
            if k < digits_text(m / 10).len() {
                assert(digits_text(m)[k] == digits_text(m / 10)[k]);
            }
        }
    }
}

/// Numbers survive a trip through text: `to_number` of the text that
/// `to_string` gives a number is that number, for every 64-bit integer.
pub proof fn law_number_text_round_trip(n: int)
    requires
        i64::MIN <= n <= i64::MAX,
    ensures
        parse_integer(int_text(n)) == Some(n),
        builtin_result(
            Builtin::ToNumber,
            seq![ObjectView::Str(display_text(ObjectView::Number(n)))],
        ) == Ok::<ObjectView, crate::builtins::BuiltinError>(ObjectView::Number(n)),
{
    let s = int_text(n);
    if n < 0 {
        let m = (-n) as nat;
        lemma_digits_text(seq!['-'], m);
        assert(s == seq!['-'] + digits_text(m));
        assert forall|k: int| 1 <= k < s.len() implies is_digit(#[trigger] s[k]) by {
            assert(s[k] == digits_text(m)[k - 1]);
        }
        lemma_scan_digits(s, 1, 0);
    } else {
        let m = n as nat;
        lemma_digits_text(seq![], m);
        assert(seq![] + digits_text(m) =~= digits_text(m));
        lemma_scan_digits(s, 0, 0);
    }
}

proof fn lemma_find_from(s: Seq<char>, d: Seq<char>, j: int)
    ensures
        find_from(s, d, j) matches Some(i) ==> j <= i && 0 <= i && i + d.len() <= s.len() && s.subrange(
            i,
            i + d.len(),
        ) == d,
    decreases s.len() + 1 - j,
{
    if !(j < 0 || j + d.len() > s.len()) && s.subrange(j, j + d.len()) != d {
        lemma_find_from(s, d, j + 1);
    }
}

proof fn lemma_joined_cons(x: ObjectView, a: Seq<ObjectView>, sep: Seq<char>, n: int)
    requires
        1 <= n <= a.len(),
    ensures
        joined(seq![x] + a, sep, n + 1) == join_piece(x) + sep + joined(a, sep, n),
    decreases n,
{
    let xa = seq![x] + a;
    assert(xa[n] == a[n - 1]);
    if n == 1 {
        assert(xa[0] == x);
        assert(joined(xa, sep, 1) == join_piece(x));
    } else {
        lemma_joined_cons(x, a, sep, n - 1);
        assert(joined(xa, sep, n + 1) == joined(xa, sep, n) + sep + join_piece(xa[n]));
        assert(joined(a, sep, n) == joined(a, sep, n - 1) + sep + join_piece(a[n - 1]));
        assert(joined(xa, sep, n + 1) =~= join_piece(x) + sep + joined(a, sep, n));
    }
}

/// Joining the pieces of a split with the same non-empty delimiter gives
/// back the string: `join(split(s, d), d)` is `s`.
pub proof fn law_join_split(s: Seq<char>, d: Seq<char>)
    requires
        d.len() > 0,
    ensures
        ({
            let pieces = split_pieces(s, d).map_values(|p: Seq<char>| ObjectView::Str(p));
            &&& pieces.len() >= 1
            &&& joined(pieces, d, pieces.len() as int) == s
        }),
    decreases s.len(),
{
    let pieces = split_pieces(s, d).map_values(|p: Seq<char>| ObjectView::Str(p));
    lemma_find_from(s, d, 0);
    match find_from(s, d, 0) {
        Some(i) => {
            let rest = s.subrange(i + d.len(), s.len() as int);
            law_join_split(rest, d);
            let tail = split_pieces(rest, d).map_values(|p: Seq<char>| ObjectView::Str(p));
            let head = ObjectView::Str(s.subrange(0, i));
            assert(pieces =~= seq![head] + tail);
            lemma_joined_cons(head, tail, d, tail.len() as int);
            assert(s =~= s.subrange(0, i) + s.subrange(i, i + d.len()) + rest);
            assert(joined(pieces, d, pieces.len() as int) =~= s);
        },
        None => {
            assert(pieces =~= seq![ObjectView::Str(s)]);
            assert(joined(pieces, d, 1) == join_piece(pieces[0]));
        },
    }
}

} // verus!
