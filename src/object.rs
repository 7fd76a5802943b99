//! Runtime values: the tagged union that programs compute with, its view,
//! truthiness, type names, equality and display text.
use vstd::prelude::*;

use crate::ast::{copy_strings, AstNode, AstView};
use crate::env::Environment;
use crate::text::{int_text, push_char, push_int, push_str};

verus! {

broadcast use vstd::std_specs::vec::group_vec_axioms;

/// The native functions that every program can call. Numbers are integers,
/// so `sqrt` gives the integer square root and `floor`, `ceil` and `round`
/// return their argument; there are no trigonometric functions.
#[derive(Debug, Clone, Copy, PartialEq, Eq)]
pub enum Builtin {
    Print,
    Println,
    Len,
    Push,
    Pop,
    First,
    Last,
    Rest,
    Abs,
    Sqrt,
    Pow,
    Floor,
    Ceil,
    Round,
    Min,
    Max,
    Substr,
    Upper,
    Lower,
    Trim,
    Split,
    Join,
    Type,
    ToString,
    ToNumber,
}

/// A runtime value. Arrays hold their elements by value; a function holds
/// its parameter names, its body and the environment it was defined in.
#[derive(Debug)]
pub enum Object {
    Number(i64),
    Boolean(bool),
    String(String),
    Array(Vec<Object>),
    Function { parameters: Vec<String>, body: AstNode, closure: Environment },
    BuiltinFunction(Builtin),
    Null,
}

/// The mathematical content of a value. A function is its parameter names,
/// its body and the bindings it captured.
pub enum ObjectView {
    Number(int),
    Boolean(bool),
    Str(Seq<char>),
    Array(Seq<ObjectView>),
    Function(Seq<Seq<char>>, AstView, Map<Seq<char>, ObjectView>),
    Builtin(Builtin),
    Null,
}

/// The kind of a value, as `type` names it.
#[derive(Debug, Clone, Copy, PartialEq, Eq)]
pub enum TypeTag {
    Number,
    Boolean,
    String,
    Array,
    Function,
    Builtin,
    Null,
}

pub open spec fn names_view(v: Seq<String>) -> Seq<Seq<char>> {
    Seq::new(v.len(), |i: int| v[i]@)
}

impl Object {
    pub open spec fn view(&self) -> ObjectView
        decreases self,
    {
        match self {
            Object::Number(n) => ObjectView::Number(*n as int),
            Object::Boolean(b) => ObjectView::Boolean(*b),
            Object::String(s) => ObjectView::Str(s@),
            Object::Array(v) => ObjectView::Array(
                Seq::new(
                    v@.len(),
                    |i: int|
                        if 0 <= i < v@.len() {
                            v@[i].view()
                        } else {
                            ObjectView::Null
                        },
                ),
            ),
            Object::Function { parameters, body, closure } => ObjectView::Function(
                names_view(parameters@),
                body.view(),
                closure.view(),
            ),
            Object::BuiltinFunction(b) => ObjectView::Builtin(*b),
            Object::Null => ObjectView::Null,
        }
    }
}

impl Object {
    /// A copy of the value; arrays are copied element by element.
    pub fn copy(&self) -> (r: Object)
        ensures
            r@ == self@,
        decreases self, 0nat,
    {
        match self {
            Object::Number(n) => Object::Number(*n),
            Object::Boolean(b) => Object::Boolean(*b),
            Object::String(s) => Object::String(s.clone()),
            Object::Array(v) => {
                let mut w: Vec<Object> = Vec::new();
                let mut i: usize = 0;
                while i < v.len()
                    invariant
                        i <= v@.len(),
                        self is Array,
                        self->Array_0 == *v,
                        w@.len() == i,
                        forall|k: int| 0 <= k < i ==> #[trigger] w@[k]@ == v@[k]@,
                    decreases v@.len() - i,
                {
                    proof {
                        assert(decreases_to!(*v => v[i as int]));
                        assert(decreases_to!(*self => v[i as int]));
                    }
                    w.push(v[i].copy());
                    i = i + 1;
                }
                let r = Object::Array(w);
                assert(r@ == self@) by {
                    if let ObjectView::Array(a) = r@ {
                        if let ObjectView::Array(b) = self@ {
                            assert forall|k: int| 0 <= k < a.len() implies a[k] == b[k] by {
                                assert(a[k] == w@[k]@);
                                assert(b[k] == v@[k]@);
                            }
                            assert(a =~= b);
                        }
                    }
                }
                r
            },
            Object::Function { parameters, body, closure } => {
                proof {
                    assert(decreases_to!(*self => self->closure));
                }
                let c = closure.copy();
                let p = copy_strings(parameters);
                assert(names_view(p@) =~= names_view(parameters@));
                Object::Function { parameters: p, body: body.deep_clone(), closure: c }
            },
            Object::BuiltinFunction(b) => Object::BuiltinFunction(*b),
            Object::Null => Object::Null,
        }
    }
}


pub open spec fn tag_of(v: ObjectView) -> TypeTag {
    match v {
        ObjectView::Number(_) => TypeTag::Number,
        ObjectView::Boolean(_) => TypeTag::Boolean,
        ObjectView::Str(_) => TypeTag::String,
        ObjectView::Array(_) => TypeTag::Array,
        ObjectView::Function(..) => TypeTag::Function,
        ObjectView::Builtin(_) => TypeTag::Builtin,
        ObjectView::Null => TypeTag::Null,
    }
}

/// The name that `type` gives to each kind of value.
pub open spec fn tag_name(t: TypeTag) -> Seq<char> {
    match t {
        TypeTag::Number => seq!['n', 'u', 'm', 'b', 'e', 'r'],
        TypeTag::Boolean => seq!['b', 'o', 'o', 'l', 'e', 'a', 'n'],
        TypeTag::String => seq!['s', 't', 'r', 'i', 'n', 'g'],
        TypeTag::Array => seq!['a', 'r', 'r', 'a', 'y'],
        TypeTag::Function => seq!['f', 'u', 'n', 'c', 't', 'i', 'o', 'n'],
        TypeTag::Builtin => seq!['b', 'u', 'i', 'l', 't', 'i', 'n'],
        TypeTag::Null => seq!['n', 'u', 'l', 'l'],
    }
}

/// Truthiness: numbers are truthy when nonzero, strings and arrays when
/// non-empty, `null` never, functions always.
pub open spec fn truthy(v: ObjectView) -> bool {
    match v {
        ObjectView::Number(n) => n != 0,
        ObjectView::Boolean(b) => b,
        ObjectView::Str(s) => s.len() > 0,
        ObjectView::Array(a) => a.len() > 0,
        ObjectView::Function(..) => true,
        ObjectView::Builtin(_) => true,
        ObjectView::Null => false,
    }
}

/// Structural equality of values: arrays element by element; functions and
/// builtins are never equal to anything.
pub open spec fn values_equal(a: ObjectView, b: ObjectView) -> bool
    decreases a,
{
    match (a, b) {
        (ObjectView::Number(x), ObjectView::Number(y)) => x == y,
        (ObjectView::Boolean(x), ObjectView::Boolean(y)) => x == y,
        (ObjectView::Str(x), ObjectView::Str(y)) => x == y,
        (ObjectView::Null, ObjectView::Null) => true,
        (ObjectView::Array(x), ObjectView::Array(y)) => x.len() == y.len() && forall|i: int|
            0 <= i < x.len() ==> values_equal(#[trigger] x[i], y[i]),
        _ => false,
    }
}

/// Display text of a value nested in an array: strings in quotes.
pub open spec fn element_text(v: ObjectView) -> Seq<char>
    decreases v, 1nat,
{
    match v {
        ObjectView::Str(s) => seq!['"'] + s + seq!['"'],
        _ => display_text(v),
    }
}

/// The display text of the elements `a[..n]`, separated by `, `.
pub open spec fn elements_text(a: Seq<ObjectView>, n: int) -> Seq<char>
    decreases a, n,
{
    if n <= 0 || n > a.len() {
        seq![]
    } else if n == 1 {
        element_text(a[0])
    } else {
        elements_text(a, n - 1) + seq![',', ' '] + element_text(a[n - 1])
    }
}

/// Parameter names separated by `, `.
pub open spec fn names_text(p: Seq<Seq<char>>, n: int) -> Seq<char>
    decreases n,
{
    if n <= 0 || n > p.len() {
        seq![]
    } else if n == 1 {
        p[0]
    } else {
        names_text(p, n - 1) + seq![',', ' '] + p[n - 1]
    }
}

/// The display text of a value: integers in decimal, strings unquoted,
/// arrays as `[e1, e2]` with nested strings quoted.
pub open spec fn display_text(v: ObjectView) -> Seq<char>
    decreases v, 0nat,
{
    match v {
        ObjectView::Number(n) => int_text(n),
        ObjectView::Boolean(b) => if b {
            seq!['t', 'r', 'u', 'e']
        } else {
            seq!['f', 'a', 'l', 's', 'e']
        },
        ObjectView::Str(s) => s,
        ObjectView::Array(a) => seq!['['] + elements_text(a, a.len() as int) + seq![']'],
        ObjectView::Function(p, _, _) => seq!['f', 'u', 'n', 'c', 't', 'i', 'o', 'n', '('] + names_text(
            p,
            p.len() as int,
        ) + seq![')'],
        ObjectView::Builtin(_) => seq![
            'b',
            'u',
            'i',
            'l',
            't',
            'i',
            'n',
            ' ',
            'f',
            'u',
            'n',
            'c',
            't',
            'i',
            'o',
            'n',
        ],
        ObjectView::Null => seq!['n', 'u', 'l', 'l'],
    }
}

impl Object {
    pub fn is_truthy(&self) -> (r: bool)
        ensures
            r == truthy(self@),
    {
        match self {
            Object::Boolean(b) => *b,
            Object::Number(n) => *n != 0,
            Object::String(s) => s.as_str().unicode_len() != 0,
            Object::Array(a) => a.len() != 0,
            Object::Null => false,
            Object::Function { .. } => true,
            Object::BuiltinFunction(_) => true,
        }
    }

    pub fn type_tag(&self) -> (r: TypeTag)
        ensures
            r == tag_of(self@),
    {
        match self {
            Object::Number(_) => TypeTag::Number,
            Object::Boolean(_) => TypeTag::Boolean,
            Object::String(_) => TypeTag::String,
            Object::Array(_) => TypeTag::Array,
            Object::Function { .. } => TypeTag::Function,
            Object::BuiltinFunction(_) => TypeTag::Builtin,
            Object::Null => TypeTag::Null,
        }
    }

    /// The name of the value's kind: `number`, `boolean`, `string`, `array`,
    /// `function`, `builtin` or `null`.
    pub fn kind_name(&self) -> (r: &'static str)
        ensures
            r@ == tag_name(tag_of(self@)),
    {
        type_tag_name(self.type_tag())
    }

    /// Appends the display text of the value to `out`.
    pub fn push_display(&self, out: &mut String)
        ensures
            final(out)@ == old(out)@ + display_text(self@),
        decreases self,
    {
        match self {
            Object::Number(n) => push_int(out, *n),
            Object::Boolean(b) => {
                if *b {
                    push_str(out, "true");
                    proof {
                        reveal_strlit("true");
                    }
                } else {
                    push_str(out, "false");
                    proof {
                        reveal_strlit("false");
                    }
                }
            },
            Object::String(s) => push_str(out, s.as_str()),
            Object::Array(v) => {
                let ghost start = out@;
                let ghost a = self@->Array_0;
                push_char(out, '[');
                let mut i: usize = 0;
                while i < v.len()
                    invariant
                        i <= v@.len(),
                        self is Array,
                        self->Array_0 == *v,
                        a == self@->Array_0,
                        a.len() == v@.len(),
                        forall|k: int| 0 <= k < v@.len() ==> #[trigger] a[k] == v@[k]@,
                        out@ == start + seq!['['] + elements_text(a, i as int),
                    decreases v@.len() - i,
                {
                    proof {
                        assert(decreases_to!(*v => v[i as int]));
                        assert(decreases_to!(*self => v[i as int]));
                    }
                    if i > 0 {
                        push_str(out, ", ");
                        proof {
                            reveal_strlit(", ");
                        }
                    }
                    let ghost before = out@;
                    proof {
                        assert(a[i as int] == v@[i as int]@);
                    }
                    match &v[i] {
                        Object::String(s) => {
                            push_char(out, '"');
                            push_str(out, s.as_str());
                            push_char(out, '"');
                            assert(out@ =~= before + element_text(a[i as int]));
                        },
                        other => {
                            other.push_display(out);
                            assert(out@ =~= before + element_text(a[i as int]));
                        },
                    }
                    proof {
                        if i == 0 {
                            assert(elements_text(a, 1) == element_text(a[0]));
                        } else {
                            assert(elements_text(a, i + 1) == elements_text(a, i as int) + seq![',', ' ']
                                + element_text(a[i as int]));
                        }
                    }
                    i = i + 1;
                    assert(out@ =~= start + seq!['['] + elements_text(a, i as int));
                }
                push_char(out, ']');
                assert(out@ =~= old(out)@ + display_text(self@));
            },
            Object::Function { parameters, .. } => {
                push_str(out, "function(");
                proof {
                    reveal_strlit("function(");
                }
                let ghost start = out@;
                let ghost p = self@->Function_0;
                let mut i: usize = 0;
                while i < parameters.len()
                    invariant
                        i <= parameters@.len(),
                        p == names_view(parameters@),
                        out@ == start + names_text(p, i as int),
                    decreases parameters@.len() - i,
                {
                    if i > 0 {
                        push_str(out, ", ");
                        proof {
                            reveal_strlit(", ");
                        }
                    }
                    push_str(out, parameters[i].as_str());
                    i = i + 1;
                    assert(out@ =~= start + names_text(p, i as int));
                }
                push_char(out, ')');
                assert(out@ =~= old(out)@ + display_text(self@));
            },
            Object::BuiltinFunction(_) => {
                push_str(out, "builtin function");
                proof {
                    reveal_strlit("builtin function");
                }
                assert(out@ =~= old(out)@ + display_text(self@));
            },
            Object::Null => {
                push_str(out, "null");
                proof {
                    reveal_strlit("null");
                }
                assert(out@ =~= old(out)@ + display_text(self@));
            },
        }
    }

    /// The display text of the value.
    pub fn to_display_string(&self) -> (r: String)
        ensures
            r@ == display_text(self@),
    {
        let mut out = String::new();
        self.push_display(&mut out);
        assert(out@ =~= display_text(self@));
        out
    }
}

pub fn type_tag_name(t: TypeTag) -> (r: &'static str)
    ensures
        r@ == tag_name(t),
{
    match t {
        TypeTag::Number => {
            proof {
                reveal_strlit("number");
            }
            "number"
        },
        TypeTag::Boolean => {
            proof {
                reveal_strlit("boolean");
            }
            "boolean"
        },
        TypeTag::String => {
            proof {
                reveal_strlit("string");
            }
            "string"
        },
        TypeTag::Array => {
            proof {
                reveal_strlit("array");
            }
            "array"
        },
        TypeTag::Function => {
            proof {
                reveal_strlit("function");
            }
            "function"
        },
        TypeTag::Builtin => {
            proof {
                reveal_strlit("builtin");
            }
            "builtin"
        },
        TypeTag::Null => {
            proof {
                reveal_strlit("null");
            }
            "null"
        },
    }
}

/// Structural equality of two values.
pub fn objects_equal(left: &Object, right: &Object) -> (r: bool)
    ensures
        r == values_equal(left@, right@),
    decreases left,
{
    match (left, right) {
        (Object::Number(l), Object::Number(r)) => *l == *r,
        (Object::Boolean(l), Object::Boolean(r)) => *l == *r,
        (Object::String(l), Object::String(r)) => *l == *r,
        (Object::Null, Object::Null) => true,
        (Object::Array(l), Object::Array(r)) => {
            if l.len() != r.len() {
                return false;
            }
            let mut i: usize = 0;
            while i < l.len()
                invariant
                    i <= l@.len(),
                    l@.len() == r@.len(),
                    left is Array,
                    left->Array_0 == *l,
                    right->Array_0 == *r,
                    right is Array,
                    forall|k: int| 0 <= k < i ==> values_equal(#[trigger] l@[k]@, r@[k]@),
                decreases l@.len() - i,
            {
                proof {
                    assert(decreases_to!(*l => l[i as int]));
                    assert(decreases_to!(*left => l[i as int]));
                }
                if !objects_equal(&l[i], &r[i]) {
                    assert(left@->Array_0[i as int] == l@[i as int]@);
                    assert(right@->Array_0[i as int] == r@[i as int]@);
                    return false;
                }
                i = i + 1;
            }
            proof {
                let a = left@->Array_0;
                let b = right@->Array_0;
                assert forall|k: int| 0 <= k < a.len() implies values_equal(#[trigger] a[k], b[k]) by {
                    assert(a[k] == l@[k]@);
                    assert(b[k] == r@[k]@);
                }
            }
            true
        },
        _ => false,
    }
}

} // verus!
