//! Prefix and infix operators, and indexing, on evaluated operands.
use vstd::prelude::*;

use crate::object::{tag_of, values_equal, objects_equal, Object, ObjectView, TypeTag};
use crate::token::{Token, TokenView};
use crate::text::chars_of;

verus! {

broadcast use vstd::std_specs::vec::group_vec_axioms;

/// Why an operator or an index refused its operands.
#[derive(Debug, Clone, Copy, PartialEq, Eq)]
pub enum OperatorError {
    DivisionByZero,
    ModuloByZero,
    /// The result does not fit a 64-bit integer.
    ArithmeticOverflow,
    /// The operator does not apply to operands of these kinds.
    TypeMismatch { left: TypeTag, right: TypeTag },
    /// `-` of something other than a number.
    CannotNegate(TypeTag),
    /// An index below zero or at or past the end.
    IndexOutOfBounds { index: i64, length: usize },
    /// An index that is not a number, into a container of this kind.
    IndexNotNumber(TypeTag),
    /// Indexing into something other than an array or a string.
    NotIndexable(TypeTag),
}

pub open spec fn fits(n: int) -> bool {
    i64::MIN <= n <= i64::MAX
}

/// Integer division rounding toward zero.
pub open spec fn trunc_div(a: int, b: int) -> int {
    let q = (if a < 0 { -a } else { a }) / (if b < 0 { -b } else { b });
    if (a < 0) != (b < 0) {
        -q
    } else {
        q
    }
}

/// The remainder of `trunc_div`: it has the sign of `a`.
pub open spec fn trunc_rem(a: int, b: int) -> int {
    a - b * trunc_div(a, b)
}

/// `a` comes before `b` in the order of their characters.
pub open spec fn text_less(a: Seq<char>, b: Seq<char>) -> bool
    decreases a.len(),
{
    if a.len() == 0 {
        b.len() > 0
    } else if b.len() == 0 {
        false
    } else if a[0] != b[0] {
        a[0] < b[0]
    } else {
        text_less(a.subrange(1, a.len() as int), b.subrange(1, b.len() as int))
    }
}

pub open spec fn arith(n: int) -> Result<ObjectView, OperatorError> {
    if fits(n) {
        Ok(ObjectView::Number(n))
    } else {
        Err(OperatorError::ArithmeticOverflow)
    }
}

/// A binary operator on two numbers.
pub open spec fn number_infix(op: TokenView, l: int, r: int) -> Result<ObjectView, OperatorError> {
    match op {
        TokenView::Plus => arith(l + r),
        TokenView::Minus => arith(l - r),
        TokenView::Multiply => arith(l * r),
        TokenView::Divide => if r == 0 {
            Err(OperatorError::DivisionByZero)
        } else {
            arith(trunc_div(l, r))
        },
        TokenView::Modulo => if r == 0 {
            Err(OperatorError::ModuloByZero)
        } else {
            arith(trunc_rem(l, r))
        },
        TokenView::Equal => Ok(ObjectView::Boolean(l == r)),
        TokenView::NotEqual => Ok(ObjectView::Boolean(l != r)),
        TokenView::LessThan => Ok(ObjectView::Boolean(l < r)),
        TokenView::GreaterThan => Ok(ObjectView::Boolean(l > r)),
        TokenView::LessThanOrEqual => Ok(ObjectView::Boolean(l <= r)),
        TokenView::GreaterThanOrEqual => Ok(ObjectView::Boolean(l >= r)),
        _ => Err(OperatorError::TypeMismatch { left: TypeTag::Number, right: TypeTag::Number }),
    }
}

/// A binary operator on two booleans.
pub open spec fn boolean_infix(op: TokenView, l: bool, r: bool) -> Result<ObjectView, OperatorError> {
    match op {
        TokenView::Equal => Ok(ObjectView::Boolean(l == r)),
        TokenView::NotEqual => Ok(ObjectView::Boolean(l != r)),
        TokenView::And => Ok(ObjectView::Boolean(l && r)),
        TokenView::Or => Ok(ObjectView::Boolean(l || r)),
        _ => Err(OperatorError::TypeMismatch { left: TypeTag::Boolean, right: TypeTag::Boolean }),
    }
}

/// A binary operator on two strings: `+` joins them, comparisons go by characters.
pub open spec fn string_infix(op: TokenView, l: Seq<char>, r: Seq<char>) -> Result<ObjectView, OperatorError> {
    match op {
        TokenView::Plus => Ok(ObjectView::Str(l + r)),
        TokenView::Equal => Ok(ObjectView::Boolean(l == r)),
        TokenView::NotEqual => Ok(ObjectView::Boolean(l != r)),
        TokenView::LessThan => Ok(ObjectView::Boolean(text_less(l, r))),
        TokenView::GreaterThan => Ok(ObjectView::Boolean(text_less(r, l))),
        TokenView::LessThanOrEqual => Ok(ObjectView::Boolean(!text_less(r, l))),
        TokenView::GreaterThanOrEqual => Ok(ObjectView::Boolean(!text_less(l, r))),
        _ => Err(OperatorError::TypeMismatch { left: TypeTag::String, right: TypeTag::String }),
    }
}

/// A binary operator on two values: numbers, booleans and strings pair with
/// their own kind; other pairs only compare with `==` and `!=`.
pub open spec fn infix_result(op: TokenView, l: ObjectView, r: ObjectView) -> Result<ObjectView, OperatorError> {
    match (l, r) {
        (ObjectView::Number(a), ObjectView::Number(b)) => number_infix(op, a, b),
        (ObjectView::Boolean(a), ObjectView::Boolean(b)) => boolean_infix(op, a, b),
        (ObjectView::Str(a), ObjectView::Str(b)) => string_infix(op, a, b),
        _ => match op {
            TokenView::Equal => Ok(ObjectView::Boolean(values_equal(l, r))),
            TokenView::NotEqual => Ok(ObjectView::Boolean(!values_equal(l, r))),
            _ => Err(OperatorError::TypeMismatch { left: tag_of(l), right: tag_of(r) }),
        },
    }
}

/// A prefix operator: `!` negates truthiness, `-` negates a number.
pub open spec fn prefix_result(op: TokenView, v: ObjectView) -> Result<ObjectView, OperatorError> {
    match op {
        TokenView::Not => Ok(ObjectView::Boolean(!crate::object::truthy(v))),
        _ => match v {
            ObjectView::Number(n) => arith(-n),
            _ => Err(OperatorError::CannotNegate(tag_of(v))),
        },
    }
}

/// Indexing: an element of an array, or a one-character string of a string.
pub open spec fn index_result(c: ObjectView, i: ObjectView) -> Result<ObjectView, OperatorError> {
    match (c, i) {
        (ObjectView::Array(a), ObjectView::Number(n)) => if 0 <= n < a.len() {
            Ok(a[n])
        } else {
            Err(OperatorError::IndexOutOfBounds { index: n as i64, length: a.len() as usize })
        },
        (ObjectView::Str(s), ObjectView::Number(n)) => if 0 <= n < s.len() {
            Ok(ObjectView::Str(seq![s[n]]))
        } else {
            Err(OperatorError::IndexOutOfBounds { index: n as i64, length: s.len() as usize })
        },
        (ObjectView::Array(_), _) => Err(OperatorError::IndexNotNumber(TypeTag::Array)),
        (ObjectView::Str(_), _) => Err(OperatorError::IndexNotNumber(TypeTag::String)),
        _ => Err(OperatorError::NotIndexable(tag_of(c))),
    }
}

pub open spec fn op_view(r: Result<Object, OperatorError>) -> Result<ObjectView, OperatorError> {
    match r {
        Ok(v) => Ok(v@),
        Err(e) => Err(e),
    }
}

fn checked(n: i128) -> (r: Result<Object, OperatorError>)
    ensures
        op_view(r) == arith(n as int),
{
    if n >= i64::MIN as i128 && n <= i64::MAX as i128 {
        Ok(Object::Number(n as i64))
    } else {
        Err(OperatorError::ArithmeticOverflow)
    }
}

fn truncating_div(l: i64, r: i64) -> (q: i128)
    requires
        r != 0,
    ensures
        q == trunc_div(l as int, r as int),
{
    let a: i128 = if l < 0 { -(l as i128) } else { l as i128 };
    let b: i128 = if r < 0 { -(r as i128) } else { r as i128 };
    let q = a / b;
    if (l < 0) != (r < 0) {
        -q
    } else {
        q
    }
}

pub fn evaluate_number_infix_op(op: &Token, l: i64, r: i64) -> (res: Result<Object, OperatorError>)
    ensures
        op_view(res) == number_infix(op@, l as int, r as int),
{
    match op {
        Token::Plus => checked(l as i128 + r as i128),
        Token::Minus => checked(l as i128 - r as i128),
        Token::Multiply => {
            assert(-0x8000_0000_0000_0000_0000_0000_0000_0000 < (l as int) * (r as int) < 0x8000_0000_0000_0000_0000_0000_0000_0000) by (nonlinear_arith)
                requires
                    i64::MIN <= l <= i64::MAX,
                    i64::MIN <= r <= i64::MAX,
            ;
            checked(l as i128 * r as i128)
        },
        Token::Divide => {
            if r == 0 {
                Err(OperatorError::DivisionByZero)
            } else {
                checked(truncating_div(l, r))
            }
        },
        Token::Modulo => {
            if r == 0 {
                Err(OperatorError::ModuloByZero)
            } else {
                let q = truncating_div(l, r);
                assert(-0x8000_0000_0000_0000 <= q <= 0x8000_0000_0000_0000) by (nonlinear_arith)
                    requires
                        q == trunc_div(l as int, r as int),
                        r != 0,
                        i64::MIN <= l <= i64::MAX,
                        i64::MIN <= r <= i64::MAX,
                ;
                assert(-0x4000_0000_0000_0000_0000_0000_0000_0000 <= (r as int) * (q as int) <= 0x4000_0000_0000_0000_0000_0000_0000_0000) by (nonlinear_arith)
                    requires
                        -0x8000_0000_0000_0000 <= q <= 0x8000_0000_0000_0000,
                        i64::MIN <= r <= i64::MAX,
                ;
                checked(l as i128 - r as i128 * q)
            }
        },
        Token::Equal => Ok(Object::Boolean(l == r)),
        Token::NotEqual => Ok(Object::Boolean(l != r)),
        Token::LessThan => Ok(Object::Boolean(l < r)),
        Token::GreaterThan => Ok(Object::Boolean(l > r)),
        Token::LessThanOrEqual => Ok(Object::Boolean(l <= r)),
        Token::GreaterThanOrEqual => Ok(Object::Boolean(l >= r)),
        _ => Err(OperatorError::TypeMismatch { left: TypeTag::Number, right: TypeTag::Number }),
    }
}

pub fn evaluate_boolean_infix_op(op: &Token, l: bool, r: bool) -> (res: Result<Object, OperatorError>)
    ensures
        op_view(res) == boolean_infix(op@, l, r),
{
    match op {
        Token::Equal => Ok(Object::Boolean(l == r)),
        Token::NotEqual => Ok(Object::Boolean(l != r)),
        Token::And => Ok(Object::Boolean(l && r)),
        Token::Or => Ok(Object::Boolean(l || r)),
        _ => Err(OperatorError::TypeMismatch { left: TypeTag::Boolean, right: TypeTag::Boolean }),
    }
}

fn less_text(a: &Vec<char>, b: &Vec<char>) -> (r: bool)
    ensures
        r == text_less(a@, b@),
{
    let mut i: usize = 0;
    assert(a@.subrange(0, a@.len() as int) =~= a@);
    assert(b@.subrange(0, b@.len() as int) =~= b@);
    while i < a.len() && i < b.len() && a[i] == b[i]
        invariant
            i <= a@.len(),
            i <= b@.len(),
            text_less(a@, b@) == text_less(
                a@.subrange(i as int, a@.len() as int),
                b@.subrange(i as int, b@.len() as int),
            ),
        decreases a@.len() - i,
    {
        proof {
            let x = a@.subrange(i as int, a@.len() as int);
            let y = b@.subrange(i as int, b@.len() as int);
            assert(x.subrange(1, x.len() as int) =~= a@.subrange(i + 1, a@.len() as int));
            assert(y.subrange(1, y.len() as int) =~= b@.subrange(i + 1, b@.len() as int));
        }
        i = i + 1;
    }
    if i == a.len() {
        i < b.len()
    } else if i == b.len() {
        false
    } else {
        a[i] < b[i]
    }
}

pub fn evaluate_string_infix_op(op: &Token, l: &String, r: &String) -> (res: Result<Object, OperatorError>)
    ensures
        op_view(res) == string_infix(op@, l@, r@),
{
    match op {
        Token::Plus => {
            let s = l.clone().concat(r.as_str());
            Ok(Object::String(s))
        },
        Token::Equal => Ok(Object::Boolean(*l == *r)),
        Token::NotEqual => Ok(Object::Boolean(!(*l == *r))),
        Token::LessThan | Token::GreaterThan | Token::LessThanOrEqual | Token::GreaterThanOrEqual => {
            let a = chars_of(l.as_str());
            let b = chars_of(r.as_str());
            match op {
                Token::LessThan => Ok(Object::Boolean(less_text(&a, &b))),
                Token::GreaterThan => Ok(Object::Boolean(less_text(&b, &a))),
                Token::LessThanOrEqual => Ok(Object::Boolean(!less_text(&b, &a))),
                _ => Ok(Object::Boolean(!less_text(&a, &b))),
            }
        },
        _ => Err(OperatorError::TypeMismatch { left: TypeTag::String, right: TypeTag::String }),
    }
}

/// A binary operator on two evaluated operands.
pub fn evaluate_infix(op: &Token, l: &Object, r: &Object) -> (res: Result<Object, OperatorError>)
    ensures
        op_view(res) == infix_result(op@, l@, r@),
{
    match (l, r) {
        (Object::Number(a), Object::Number(b)) => evaluate_number_infix_op(op, *a, *b),
        (Object::Boolean(a), Object::Boolean(b)) => evaluate_boolean_infix_op(op, *a, *b),
        (Object::String(a), Object::String(b)) => evaluate_string_infix_op(op, a, b),
        _ => match op {
            Token::Equal => Ok(Object::Boolean(objects_equal(l, r))),
            Token::NotEqual => Ok(Object::Boolean(!objects_equal(l, r))),
            _ => Err(OperatorError::TypeMismatch { left: l.type_tag(), right: r.type_tag() }),
        },
    }
}

/// A prefix operator on an evaluated operand.
pub fn evaluate_prefix(op: &Token, v: &Object) -> (res: Result<Object, OperatorError>)
    requires
        op@ is Not || op@ is Minus,
    ensures
        op_view(res) == prefix_result(op@, v@),
{
    match op {
        Token::Not => Ok(Object::Boolean(!v.is_truthy())),
        _ => match v {
            Object::Number(n) => checked(-(*n as i128)),
            _ => Err(OperatorError::CannotNegate(v.type_tag())),
        },
    }
}

/// Indexes an array or a string.
pub fn evaluate_index(c: &Object, i: &Object) -> (res: Result<Object, OperatorError>)
    ensures
        op_view(res) == index_result(c@, i@),
{
    match (c, i) {
        (Object::Array(a), Object::Number(n)) => {
            if *n < 0 || *n as i128 >= a.len() as i128 {
                Err(OperatorError::IndexOutOfBounds { index: *n, length: a.len() })
            } else {
                Ok(a[*n as usize].copy())
            }
        },
        (Object::String(s), Object::Number(n)) => {
            let len = s.as_str().unicode_len();
            if *n < 0 || *n as i128 >= len as i128 {
                Err(OperatorError::IndexOutOfBounds { index: *n, length: len })
            } else {
                let k = *n as usize;
                let part = s.as_str().substring_char(k, k + 1);
                let r = Object::String(String::from_str(part));
                assert(r@->Str_0 =~= seq![s@[k as int]]);
                Ok(r)
            }
        },
        (Object::Array(_), _) => Err(OperatorError::IndexNotNumber(TypeTag::Array)),
        (Object::String(_), _) => Err(OperatorError::IndexNotNumber(TypeTag::String)),
        _ => Err(OperatorError::NotIndexable(c.type_tag())),
    }
}

} // verus!
