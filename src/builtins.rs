//! The fixed table of native functions and what each returns.
use vstd::prelude::*;

use crate::object::{
    display_text, tag_name, tag_of, Builtin, Object, ObjectView, TypeTag,
};
use crate::env::Environment;
use crate::output::{add_output, OutputBuffer};
use crate::text::{chars_of, is_digit, is_digit_char, push_str, trim, trim_text};
use crate::lexer::{scan_number, scan_number_at};

verus! {

broadcast use vstd::std_specs::vec::group_vec_axioms;

/// Why a native function refused its arguments.
#[derive(Debug, Clone, Copy, PartialEq, Eq)]
pub enum BuiltinError {
    /// Wrong number of arguments.
    ArgumentCount { function: Builtin, got: usize },
    /// An argument of a kind the function does not take.
    NotSupported { function: Builtin, kind: TypeTag },
    /// The arguments are not of the kinds the function takes together.
    ArgumentTypes { function: Builtin },
    /// `pop` of an empty array.
    EmptyArray,
    /// `sqrt` of a negative number.
    NegativeSqrt,
    /// `pow` with a negative exponent.
    NegativeExponent,
    /// The result does not fit a 64-bit integer.
    Overflow { function: Builtin },
    /// `to_number` of a string that is not an integer.
    NotNumeric,
}

/// The number of arguments a function takes, where it is fixed.
pub open spec fn arity(b: Builtin) -> Option<nat> {
    match b {
        Builtin::Print | Builtin::Println | Builtin::Min | Builtin::Max => None,
        Builtin::Push | Builtin::Pow | Builtin::Split | Builtin::Join => Some(2),
        Builtin::Substr => Some(3),
        _ => Some(1),
    }
}

/// Relies on `str::to_uppercase`.
pub uninterp spec fn upper_of(s: Seq<char>) -> Seq<char>;

/// Relies on `str::to_lowercase`.
pub uninterp spec fn lower_of(s: Seq<char>) -> Seq<char>;

/// The index of the first occurrence of `d` in `s` at or after `i`.
pub open spec fn find_from(s: Seq<char>, d: Seq<char>, i: int) -> Option<int>
    decreases s.len() + 1 - i,
{
    if i < 0 || i + d.len() > s.len() {
        None
    } else if s.subrange(i, i + d.len()) == d {
        Some(i)
    } else {
        find_from(s, d, i + 1)
    }
}

/// The pieces that `str::split` gives for a string pattern `d`: for a
/// non-empty `d`, the text around its leftmost non-overlapping occurrences;
/// for an empty `d`, each character, with an empty piece before the first
/// and after the last.
pub open spec fn split_pieces(s: Seq<char>, d: Seq<char>) -> Seq<Seq<char>>
    decreases s.len(),
{
    if d.len() == 0 {
        seq![seq![]] + Seq::new(s.len(), |i: int| seq![s[i]]) + seq![seq![]]
    } else {
        match find_from(s, d, 0) {
            Some(i) => if 0 <= i && i + d.len() <= s.len() {
                seq![s.subrange(0, i)] + split_pieces(s.subrange(i + d.len(), s.len() as int), d)
            } else {
                seq![s]
            },
            None => seq![s],
        }
    }
}

/// `base` raised to `e`.
pub open spec fn power(base: int, e: nat) -> int
    decreases e,
{
    if e == 0 {
        1
    } else {
        base * power(base, (e - 1) as nat)
    }
}

pub open spec fn fits_i64(n: int) -> bool {
    i64::MIN <= n <= i64::MAX
}

/// `r` is the integer square root of `n`.
pub open spec fn is_isqrt(r: int, n: int) -> bool {
    r >= 0 && r * r <= n < (r + 1) * (r + 1)
}

/// The least (or, with `least` false, the greatest) of the first `n`
/// arguments, all of which must be numbers.
pub open spec fn extreme_of(b: Builtin, args: Seq<ObjectView>, n: int, least: bool) -> Result<int, BuiltinError>
    decreases n,
{
    if n <= 0 || n > args.len() {
        Err(BuiltinError::ArgumentCount { function: b, got: 0 })
    } else {
        let prev = if n == 1 {
            Ok(0int)
        } else {
            extreme_of(b, args, n - 1, least)
        };
        match prev {
            Err(e) => Err(e),
            Ok(m) => match args[n - 1] {
                ObjectView::Number(x) => Ok(
                    if n == 1 || (least && x < m) || (!least && x > m) {
                        x
                    } else {
                        m
                    },
                ),
                v => Err(BuiltinError::NotSupported { function: b, kind: tag_of(v) }),
            },
        }
    }
}

/// The characters `[start, start + len)` of `s`, clipped to its end; a
/// negative start or length counts as zero.
pub open spec fn substring(s: Seq<char>, start: int, len: int) -> Seq<char> {
    let st = if start < 0 {
        0
    } else {
        start
    };
    let ln = if len < 0 {
        0
    } else {
        len
    };
    if st >= s.len() {
        seq![]
    } else {
        s.subrange(st, if st + ln < s.len() {
            st + ln
        } else {
            s.len() as int
        })
    }
}

/// The text `join` gives a value: a string as it is, anything else as displayed.
pub open spec fn join_piece(v: ObjectView) -> Seq<char> {
    match v {
        ObjectView::Str(s) => s,
        _ => display_text(v),
    }
}

/// The pieces of the first `n` elements, separated by `sep`.
pub open spec fn joined(a: Seq<ObjectView>, sep: Seq<char>, n: int) -> Seq<char>
    decreases n,
{
    if n <= 0 || n > a.len() {
        seq![]
    } else if n == 1 {
        join_piece(a[0])
    } else {
        joined(a, sep, n - 1) + sep + join_piece(a[n - 1])
    }
}

/// The display texts of the first `n` arguments, separated by spaces.
pub open spec fn print_text(args: Seq<ObjectView>, n: int) -> Seq<char>
    decreases n,
{
    if n <= 0 || n > args.len() {
        seq![]
    } else if n == 1 {
        display_text(args[0])
    } else {
        print_text(args, n - 1) + seq![' '] + display_text(args[n - 1])
    }
}

/// The integer that a string spells: an optional sign, digits, and
/// optionally a point followed by zeros only; it must fit an `i64`.
pub open spec fn parse_integer(s: Seq<char>) -> Option<int> {
    let signed = s.len() > 0 && (s[0] == '-' || s[0] == '+');
    let start: int = if signed {
        1
    } else {
        0
    };
    let (end, v, zero_fraction) = scan_number(s, start, false, 0, true);
    let value = if signed && s[0] == '-' {
        -v
    } else {
        v
    };
    let limit = if signed && s[0] == '-' {
        -(i64::MIN as int)
    } else {
        i64::MAX as int
    };
    if start < s.len() && is_digit(s[start]) && end == s.len() && zero_fraction && v <= limit {
        Some(value)
    } else {
        None
    }
}

/// What a native function returns for arguments of the right number.
pub open spec fn apply_builtin(b: Builtin, args: Seq<ObjectView>) -> Result<ObjectView, BuiltinError> {
    match b {
        Builtin::Print | Builtin::Println => Ok(ObjectView::Null),
        Builtin::Len => match args[0] {
            ObjectView::Str(s) => if s.len() <= i64::MAX {
                Ok(ObjectView::Number(s.len() as int))
            } else {
                Err(BuiltinError::Overflow { function: b })
            },
            ObjectView::Array(a) => if a.len() <= i64::MAX {
                Ok(ObjectView::Number(a.len() as int))
            } else {
                Err(BuiltinError::Overflow { function: b })
            },
            v => Err(BuiltinError::NotSupported { function: b, kind: tag_of(v) }),
        },
        Builtin::Push => match args[0] {
            ObjectView::Array(a) => Ok(ObjectView::Array(a.push(args[1]))),
            v => Err(BuiltinError::NotSupported { function: b, kind: tag_of(v) }),
        },
        Builtin::Pop => match args[0] {
            ObjectView::Array(a) => if a.len() == 0 {
                Err(BuiltinError::EmptyArray)
            } else {
                Ok(a.last())
            },
            v => Err(BuiltinError::NotSupported { function: b, kind: tag_of(v) }),
        },
        Builtin::First => match args[0] {
            ObjectView::Array(a) => if a.len() == 0 {
                Ok(ObjectView::Null)
            } else {
                Ok(a[0])
            },
            v => Err(BuiltinError::NotSupported { function: b, kind: tag_of(v) }),
        },
        Builtin::Last => match args[0] {
            ObjectView::Array(a) => if a.len() == 0 {
                Ok(ObjectView::Null)
            } else {
                Ok(a.last())
            },
            v => Err(BuiltinError::NotSupported { function: b, kind: tag_of(v) }),
        },
        Builtin::Rest => match args[0] {
            ObjectView::Array(a) => if a.len() <= 1 {
                Ok(ObjectView::Array(seq![]))
            } else {
                Ok(ObjectView::Array(a.subrange(1, a.len() as int)))
            },
            v => Err(BuiltinError::NotSupported { function: b, kind: tag_of(v) }),
        },
        Builtin::Abs => match args[0] {
            ObjectView::Number(n) => if n == i64::MIN {
                Err(BuiltinError::Overflow { function: b })
            } else {
                Ok(ObjectView::Number(if n < 0 { -n } else { n }))
            },
            v => Err(BuiltinError::NotSupported { function: b, kind: tag_of(v) }),
        },
        Builtin::Sqrt => match args[0] {
            ObjectView::Number(n) => if n < 0 {
                Err(BuiltinError::NegativeSqrt)
            } else {
                Ok(ObjectView::Number(choose|r: int| is_isqrt(r, n)))
            },
            v => Err(BuiltinError::NotSupported { function: b, kind: tag_of(v) }),
        },
        Builtin::Pow => match (args[0], args[1]) {
            (ObjectView::Number(x), ObjectView::Number(e)) => if e < 0 {
                Err(BuiltinError::NegativeExponent)
            } else if fits_i64(power(x, e as nat)) {
                Ok(ObjectView::Number(power(x, e as nat)))
            } else {
                Err(BuiltinError::Overflow { function: b })
            },
            _ => Err(BuiltinError::ArgumentTypes { function: b }),
        },
        Builtin::Floor | Builtin::Ceil | Builtin::Round => match args[0] {
            ObjectView::Number(n) => Ok(ObjectView::Number(n)),
            v => Err(BuiltinError::NotSupported { function: b, kind: tag_of(v) }),
        },
        Builtin::Min => match extreme_of(b, args, args.len() as int, true) {
            Ok(m) => Ok(ObjectView::Number(m)),
            Err(e) => Err(e),
        },
        Builtin::Max => match extreme_of(b, args, args.len() as int, false) {
            Ok(m) => Ok(ObjectView::Number(m)),
            Err(e) => Err(e),
        },
        Builtin::Substr => match (args[0], args[1], args[2]) {
            (ObjectView::Str(s), ObjectView::Number(st), ObjectView::Number(ln)) => Ok(
                ObjectView::Str(substring(s, st, ln)),
            ),
            _ => Err(BuiltinError::ArgumentTypes { function: b }),
        },
        Builtin::Upper => match args[0] {
            ObjectView::Str(s) => Ok(ObjectView::Str(upper_of(s))),
            v => Err(BuiltinError::NotSupported { function: b, kind: tag_of(v) }),
        },
        Builtin::Lower => match args[0] {
            ObjectView::Str(s) => Ok(ObjectView::Str(lower_of(s))),
            v => Err(BuiltinError::NotSupported { function: b, kind: tag_of(v) }),
        },
        Builtin::Trim => match args[0] {
            ObjectView::Str(s) => Ok(ObjectView::Str(trim_text(s))),
            v => Err(BuiltinError::NotSupported { function: b, kind: tag_of(v) }),
        },
        Builtin::Split => match (args[0], args[1]) {
            (ObjectView::Str(s), ObjectView::Str(d)) => Ok(
                ObjectView::Array(split_pieces(s, d).map_values(|p: Seq<char>| ObjectView::Str(p))),
            ),
            _ => Err(BuiltinError::ArgumentTypes { function: b }),
        },
        Builtin::Join => match (args[0], args[1]) {
            (ObjectView::Array(a), ObjectView::Str(sep)) => Ok(
                ObjectView::Str(joined(a, sep, a.len() as int)),
            ),
            _ => Err(BuiltinError::ArgumentTypes { function: b }),
        },
        Builtin::Type => Ok(ObjectView::Str(tag_name(tag_of(args[0])))),
        Builtin::ToString => Ok(ObjectView::Str(display_text(args[0]))),
        Builtin::ToNumber => match args[0] {
            ObjectView::Number(n) => Ok(ObjectView::Number(n)),
            ObjectView::Str(s) => match parse_integer(s) {
                Some(v) => Ok(ObjectView::Number(v)),
                None => Err(BuiltinError::NotNumeric),
            },
            ObjectView::Boolean(x) => Ok(ObjectView::Number(if x { 1 } else { 0 })),
            v => Err(BuiltinError::NotSupported { function: b, kind: tag_of(v) }),
        },
    }
}

/// What a native function returns: the argument count checked first.
pub open spec fn builtin_result(b: Builtin, args: Seq<ObjectView>) -> Result<ObjectView, BuiltinError> {
    match arity(b) {
        Some(n) => if args.len() != n {
            Err(BuiltinError::ArgumentCount { function: b, got: args.len() as usize })
        } else {
            apply_builtin(b, args)
        },
        None => if (b is Min || b is Max) && args.len() == 0 {
            Err(BuiltinError::ArgumentCount { function: b, got: 0 })
        } else {
            apply_builtin(b, args)
        },
    }
}

/// What `print` (and, with a newline after it, `println`) writes.
pub open spec fn printed(b: Builtin, args: Seq<ObjectView>) -> Seq<char> {
    match b {
        Builtin::Print => print_text(args, args.len() as int),
        Builtin::Println => print_text(args, args.len() as int) + seq!['\n'],
        _ => seq![],
    }
}

pub open spec fn views(args: Seq<Object>) -> Seq<ObjectView> {
    args.map_values(|o: Object| o@)
}

pub open spec fn result_view(r: Result<Object, BuiltinError>) -> Result<ObjectView, BuiltinError> {
    match r {
        Ok(v) => Ok(v@),
        Err(e) => Err(e),
    }
}

/// The name a program calls each native function by.
pub open spec fn builtin_name(b: Builtin) -> Seq<char> {
    match b {
        Builtin::Print => seq!['p', 'r', 'i', 'n', 't'],
        Builtin::Println => seq!['p', 'r', 'i', 'n', 't', 'l', 'n'],
        Builtin::Len => seq!['l', 'e', 'n'],
        Builtin::Push => seq!['p', 'u', 's', 'h'],
        Builtin::Pop => seq!['p', 'o', 'p'],
        Builtin::First => seq!['f', 'i', 'r', 's', 't'],
        Builtin::Last => seq!['l', 'a', 's', 't'],
        Builtin::Rest => seq!['r', 'e', 's', 't'],
        Builtin::Abs => seq!['a', 'b', 's'],
        Builtin::Sqrt => seq!['s', 'q', 'r', 't'],
        Builtin::Pow => seq!['p', 'o', 'w'],
        Builtin::Floor => seq!['f', 'l', 'o', 'o', 'r'],
        Builtin::Ceil => seq!['c', 'e', 'i', 'l'],
        Builtin::Round => seq!['r', 'o', 'u', 'n', 'd'],
        Builtin::Min => seq!['m', 'i', 'n'],
        Builtin::Max => seq!['m', 'a', 'x'],
        Builtin::Substr => seq!['s', 'u', 'b', 's', 't', 'r'],
        Builtin::Upper => seq!['u', 'p', 'p', 'e', 'r'],
        Builtin::Lower => seq!['l', 'o', 'w', 'e', 'r'],
        Builtin::Trim => seq!['t', 'r', 'i', 'm'],
        Builtin::Split => seq!['s', 'p', 'l', 'i', 't'],
        Builtin::Join => seq!['j', 'o', 'i', 'n'],
        Builtin::Type => seq!['t', 'y', 'p', 'e'],
        Builtin::ToString => seq!['t', 'o', '_', 's', 't', 'r', 'i', 'n', 'g'],
        Builtin::ToNumber => seq!['t', 'o', '_', 'n', 'u', 'm', 'b', 'e', 'r'],
    }
}

/// Every native function, in the order of the table.
pub open spec fn all_builtins() -> Seq<Builtin> {
    seq![Builtin::Print, Builtin::Println, Builtin::Len, Builtin::Push, Builtin::Pop, Builtin::First, Builtin::Last, Builtin::Rest, Builtin::Abs, Builtin::Sqrt, Builtin::Pow, Builtin::Floor, Builtin::Ceil, Builtin::Round, Builtin::Min, Builtin::Max, Builtin::Substr, Builtin::Upper, Builtin::Lower, Builtin::Trim, Builtin::Split, Builtin::Join, Builtin::Type, Builtin::ToString, Builtin::ToNumber]
}

/// The bindings of the first `n` native functions of `all_builtins`.
pub open spec fn table_prefix(n: int) -> Map<Seq<char>, ObjectView>
    decreases n,
{
    if n <= 0 {
        Map::empty()
    } else {
        table_prefix(n - 1).insert(
            builtin_name(all_builtins()[n - 1]),
            ObjectView::Builtin(all_builtins()[n - 1]),
        )
    }
}

/// The bindings of the native functions.
pub open spec fn builtin_table() -> Map<Seq<char>, ObjectView> {
    table_prefix(all_builtins().len() as int)
}

/// The name a program calls a native function by.
pub fn builtin_name_str(b: Builtin) -> (r: &'static str)
    ensures
        r@ == builtin_name(b),
{
    match b {
        Builtin::Print => {
            proof {
                reveal_strlit("print");
            }
            "print"
        },
        Builtin::Println => {
            proof {
                reveal_strlit("println");
            }
            "println"
        },
        Builtin::Len => {
            proof {
                reveal_strlit("len");
            }
            "len"
        },
        Builtin::Push => {
            proof {
                reveal_strlit("push");
            }
            "push"
        },
        Builtin::Pop => {
            proof {
                reveal_strlit("pop");
            }
            "pop"
        },
        Builtin::First => {
            proof {
                reveal_strlit("first");
            }
            "first"
        },
        Builtin::Last => {
            proof {
                reveal_strlit("last");
            }
            "last"
        },
        Builtin::Rest => {
            proof {
                reveal_strlit("rest");
            }
            "rest"
        },
        Builtin::Abs => {
            proof {
                reveal_strlit("abs");
            }
            "abs"
        },
        Builtin::Sqrt => {
            proof {
                reveal_strlit("sqrt");
            }
            "sqrt"
        },
        Builtin::Pow => {
            proof {
                reveal_strlit("pow");
            }
            "pow"
        },
        Builtin::Floor => {
            proof {
                reveal_strlit("floor");
            }
            "floor"
        },
        Builtin::Ceil => {
            proof {
                reveal_strlit("ceil");
            }
            "ceil"
        },
        Builtin::Round => {
            proof {
                reveal_strlit("round");
            }
            "round"
        },
        Builtin::Min => {
            proof {
                reveal_strlit("min");
            }
            "min"
        },
        Builtin::Max => {
            proof {
                reveal_strlit("max");
            }
            "max"
        },
        Builtin::Substr => {
            proof {
                reveal_strlit("substr");
            }
            "substr"
        },
        Builtin::Upper => {
            proof {
                reveal_strlit("upper");
            }
            "upper"
        },
        Builtin::Lower => {
            proof {
                reveal_strlit("lower");
            }
            "lower"
        },
        Builtin::Trim => {
            proof {
                reveal_strlit("trim");
            }
            "trim"
        },
        Builtin::Split => {
            proof {
                reveal_strlit("split");
            }
            "split"
        },
        Builtin::Join => {
            proof {
                reveal_strlit("join");
            }
            "join"
        },
        Builtin::Type => {
            proof {
                reveal_strlit("type");
            }
            "type"
        },
        Builtin::ToString => {
            proof {
                reveal_strlit("to_string");
            }
            "to_string"
        },
        Builtin::ToNumber => {
            proof {
                reveal_strlit("to_number");
            }
            "to_number"
        },
    }
}

/// Relies on `str::to_uppercase`: the result depends on the characters alone.
#[verifier::external_body]
fn uppercase(s: &str) -> (r: String)
    ensures
        r@ == upper_of(s@),
{
    s.to_uppercase()
}

/// Relies on `str::to_lowercase`: the result depends on the characters alone.
#[verifier::external_body]
fn lowercase(s: &str) -> (r: String)
    ensures
        r@ == lower_of(s@),
{
    s.to_lowercase()
}

/// Relies on `str::split` with a `&str` pattern: the pieces, in order, as
/// its documentation describes them.
#[verifier::external_body]
fn split_text(s: &str, d: &str) -> (r: Vec<String>)
    ensures
        r@.len() == split_pieces(s@, d@).len(),
        forall|i: int| 0 <= i < r@.len() ==> #[trigger] r@[i]@ == split_pieces(s@, d@)[i],
{
    s.split(d).map(|p| p.to_string()).collect()
}

fn not_supported(b: Builtin, v: &Object) -> (r: Result<Object, BuiltinError>)
    ensures
        r == Err::<Object, BuiltinError>(BuiltinError::NotSupported { function: b, kind: tag_of(v@) }),
{
    Err(BuiltinError::NotSupported { function: b, kind: v.type_tag() })
}

fn builtin_len(args: &Vec<Object>) -> (r: Result<Object, BuiltinError>)
    requires
        args@.len() == 1,
    ensures
        result_view(r) == apply_builtin(Builtin::Len, views(args@)),
{
    proof {
        assert(views(args@)[0] == args@[0]@);
    }
    match &args[0] {
        Object::String(s) => {
            let n = s.as_str().unicode_len();
            if n as u64 <= 9223372036854775807u64 {
                Ok(Object::Number(n as i64))
            } else {
                Err(BuiltinError::Overflow { function: Builtin::Len })
            }
        },
        Object::Array(a) => {
            if a.len() as u64 <= 9223372036854775807u64 {
                Ok(Object::Number(a.len() as i64))
            } else {
                Err(BuiltinError::Overflow { function: Builtin::Len })
            }
        },
        other => not_supported(Builtin::Len, other),
    }
}

/// Copies the elements `[from, to)` of `a`.
fn copy_range(a: &Vec<Object>, from: usize, to: usize) -> (r: Vec<Object>)
    requires
        from <= to <= a@.len(),
    ensures
        r@.len() == to - from,
        forall|k: int| 0 <= k < r@.len() ==> #[trigger] r@[k]@ == a@[from + k]@,
{
    let mut w: Vec<Object> = Vec::new();
    let mut i: usize = from;
    while i < to
        invariant
            from <= i <= to <= a@.len(),
            w@.len() == i - from,
            forall|k: int| 0 <= k < w@.len() ==> #[trigger] w@[k]@ == a@[from + k]@,
        decreases to - i,
    {
        w.push(a[i].copy());
        i = i + 1;
    }
    w
}

fn builtin_push(args: &Vec<Object>) -> (r: Result<Object, BuiltinError>)
    requires
        args@.len() == 2,
    ensures
        result_view(r) == apply_builtin(Builtin::Push, views(args@)),
{
    proof {
        assert(views(args@)[0] == args@[0]@);
        assert(views(args@)[1] == args@[1]@);
    }
    match &args[0] {
        Object::Array(a) => {
            let mut w = copy_range(a, 0, a.len());
            w.push(args[1].copy());
            let r = Object::Array(w);
            proof {
                let x = args@[0]@->Array_0.push(args@[1]@);
                assert forall|k: int| 0 <= k < x.len() implies r@->Array_0[k] == x[k] by {
                    assert(r@->Array_0[k] == w@[k]@);
                    if k < a@.len() {
                        assert(args@[0]@->Array_0[k] == a@[k]@);
                    }
                }
                assert(r@->Array_0 =~= x);
            }
            Ok(r)
        },
        other => not_supported(Builtin::Push, other),
    }
}

fn builtin_pop(args: &Vec<Object>) -> (r: Result<Object, BuiltinError>)
    requires
        args@.len() == 1,
    ensures
        result_view(r) == apply_builtin(Builtin::Pop, views(args@)),
{
    proof {
        assert(views(args@)[0] == args@[0]@);
    }
    match &args[0] {
        Object::Array(a) => {
            if a.len() == 0 {
                Err(BuiltinError::EmptyArray)
            } else {
                Ok(a[a.len() - 1].copy())
            }
        },
        other => not_supported(Builtin::Pop, other),
    }
}

fn builtin_first(args: &Vec<Object>) -> (r: Result<Object, BuiltinError>)
    requires
        args@.len() == 1,
    ensures
        result_view(r) == apply_builtin(Builtin::First, views(args@)),
{
    proof {
        assert(views(args@)[0] == args@[0]@);
    }
    match &args[0] {
        Object::Array(a) => {
            if a.len() == 0 {
                Ok(Object::Null)
            } else {
                Ok(a[0].copy())
            }
        },
        other => not_supported(Builtin::First, other),
    }
}

fn builtin_last(args: &Vec<Object>) -> (r: Result<Object, BuiltinError>)
    requires
        args@.len() == 1,
    ensures
        result_view(r) == apply_builtin(Builtin::Last, views(args@)),
{
    proof {
        assert(views(args@)[0] == args@[0]@);
    }
    match &args[0] {
        Object::Array(a) => {
            if a.len() == 0 {
                Ok(Object::Null)
            } else {
                Ok(a[a.len() - 1].copy())
            }
        },
        other => not_supported(Builtin::Last, other),
    }
}

fn builtin_rest(args: &Vec<Object>) -> (r: Result<Object, BuiltinError>)
    requires
        args@.len() == 1,
    ensures
        result_view(r) == apply_builtin(Builtin::Rest, views(args@)),
{
    proof {
        assert(views(args@)[0] == args@[0]@);
    }
    match &args[0] {
        Object::Array(a) => {
            if a.len() <= 1 {
                let r = Object::Array(Vec::new());
                assert(r@->Array_0 =~= seq![]);
                Ok(r)
            } else {
                let w = copy_range(a, 1, a.len());
                let r = Object::Array(w);
                proof {
                    let x = args@[0]@->Array_0.subrange(1, a@.len() as int);
                    assert forall|k: int| 0 <= k < x.len() implies r@->Array_0[k] == x[k] by {
                        assert(r@->Array_0[k] == w@[k]@);
                        assert(args@[0]@->Array_0[k + 1] == a@[k + 1]@);
                    }
                    assert(r@->Array_0 =~= x);
                }
                Ok(r)
            }
        },
        other => not_supported(Builtin::Rest, other),
    }
}

fn one_number(b: Builtin, args: &Vec<Object>) -> (r: Result<i64, BuiltinError>)
    requires
        args@.len() == 1,
    ensures
        match r {
            Ok(n) => args@[0]@ == ObjectView::Number(n as int),
            Err(e) => args@[0]@ !is Number && e == BuiltinError::NotSupported {
                function: b,
                kind: tag_of(args@[0]@),
            },
        },
{
    match &args[0] {
        Object::Number(n) => Ok(*n),
        other => Err(BuiltinError::NotSupported { function: b, kind: other.type_tag() }),
    }
}

fn builtin_abs(args: &Vec<Object>) -> (r: Result<Object, BuiltinError>)
    requires
        args@.len() == 1,
    ensures
        result_view(r) == apply_builtin(Builtin::Abs, views(args@)),
{
    proof {
        assert(views(args@)[0] == args@[0]@);
    }
    let n = one_number(Builtin::Abs, args)?;
    if n == i64::MIN {
        Err(BuiltinError::Overflow { function: Builtin::Abs })
    } else if n < 0 {
        Ok(Object::Number(-n))
    } else {
        Ok(Object::Number(n))
    }
}

proof fn lemma_isqrt_unique(r: int, n: int)
    requires
        is_isqrt(r, n),
    ensures
        (choose|x: int| is_isqrt(x, n)) == r,
{
    let c = choose|x: int| is_isqrt(x, n);
    assert(is_isqrt(c, n));
    if c < r {
        assert((c + 1) * (c + 1) <= r * r) by (nonlinear_arith)
            requires
                0 <= c + 1 <= r,
        ;
    } else if c > r {
        assert((r + 1) * (r + 1) <= c * c) by (nonlinear_arith)
            requires
                0 <= r + 1 <= c,
        ;
    }
}

/// The integer square root, by bisection.
fn isqrt(n: i64) -> (r: i64)
    requires
        n >= 0,
    ensures
        is_isqrt(r as int, n as int),
{
    let mut lo: i64 = 0;
    let mut hi: i64 = 3037000500;
    assert(n < 3037000500 * 3037000500);
    while hi - lo > 1
        invariant
            0 <= lo < hi <= 3037000500,
            lo * lo <= n,
            n < hi * hi,
        decreases hi - lo,
    {
        let mid = lo + (hi - lo) / 2;
        assert(mid * mid <= 3037000499 * 3037000499) by (nonlinear_arith)
            requires
                0 <= mid <= 3037000499,
        ;
        if mid * mid <= n {
            lo = mid;
        } else {
            hi = mid;
        }
    }
    lo
}

fn builtin_sqrt(args: &Vec<Object>) -> (r: Result<Object, BuiltinError>)
    requires
        args@.len() == 1,
    ensures
        result_view(r) == apply_builtin(Builtin::Sqrt, views(args@)),
{
    proof {
        assert(views(args@)[0] == args@[0]@);
    }
    let n = one_number(Builtin::Sqrt, args)?;
    if n < 0 {
        Err(BuiltinError::NegativeSqrt)
    } else {
        let r = isqrt(n);
        proof {
            lemma_isqrt_unique(r as int, n as int);
        }
        Ok(Object::Number(r))
    }
}

proof fn lemma_power_small(x: int, e: nat)
    ensures
        x == 1 ==> power(x, e) == 1,
        x == 0 ==> power(x, e) == (if e == 0 {
            1int
        } else {
            0int
        }),
        x == -1 ==> power(x, e) == (if e % 2 == 0 {
            1int
        } else {
            -1int
        }),
    decreases e,
{
    if e > 0 {
        lemma_power_small(x, (e - 1) as nat);
    }
}

proof fn lemma_power_grows(x: int, j: nat, k: nat)
    requires
        x >= 2 || x <= -2,
        j < k,
    ensures
        2 * abs_int(power(x, j)) <= abs_int(power(x, k)),
    decreases k,
{
    let p = power(x, (k - 1) as nat);
    assert(abs_int(x * p) >= 2 * abs_int(p)) by (nonlinear_arith)
        requires
            x >= 2 || x <= -2,
    ;
    if j < k - 1 {
        lemma_power_grows(x, j, (k - 1) as nat);
    }
}

pub open spec fn abs_int(n: int) -> int {
    if n < 0 {
        -n
    } else {
        n
    }
}

/// `x` raised to `e`, where it fits an `i64`.
fn checked_power(x: i64, e: i64) -> (r: Option<i64>)
    requires
        e >= 0,
    ensures
        match r {
            Some(v) => v == power(x as int, e as nat),
            None => !fits_i64(power(x as int, e as nat)),
        },
{
    proof {
        lemma_power_small(x as int, e as nat);
    }
    if x == 1 {
        return Some(1);
    } else if x == 0 {
        return if e == 0 {
            Some(1)
        } else {
            Some(0)
        };
    } else if x == -1 {
        return if e % 2 == 0 {
            Some(1)
        } else {
            Some(-1)
        };
    }
    let mut acc: i64 = 1;
    let mut k: i64 = 0;
    while k < e
        invariant
            0 <= k <= e,
            x >= 2 || x <= -2,
            acc == power(x as int, k as nat),
        decreases e - k,
    {
        assert(-0x8000_0000_0000_0000_0000_0000_0000_0000 < (acc as int) * (x as int) < 0x8000_0000_0000_0000_0000_0000_0000_0000) by (nonlinear_arith)
            requires
                i64::MIN <= acc <= i64::MAX,
                i64::MIN <= x <= i64::MAX,
        ;
        let p = (acc as i128) * (x as i128);
        assert(power(x as int, (k + 1) as nat) == (x as int) * power(x as int, k as nat));
        assert(p == power(x as int, (k + 1) as nat)) by (nonlinear_arith)
            requires
                p == (acc as int) * (x as int),
                acc == power(x as int, k as nat),
                power(x as int, (k + 1) as nat) == (x as int) * power(x as int, k as nat),
        ;
        if p > i64::MAX as i128 || p < i64::MIN as i128 {
            proof {
                if k + 1 < e {
                    lemma_power_grows(x as int, (k + 1) as nat, e as nat);
                }
            }
            return None;
        }
        acc = p as i64;
        k = k + 1;
    }
    Some(acc)
}

fn builtin_pow(args: &Vec<Object>) -> (r: Result<Object, BuiltinError>)
    requires
        args@.len() == 2,
    ensures
        result_view(r) == apply_builtin(Builtin::Pow, views(args@)),
{
    proof {
        assert(views(args@)[0] == args@[0]@);
        assert(views(args@)[1] == args@[1]@);
    }
    match (&args[0], &args[1]) {
        (Object::Number(x), Object::Number(e)) => {
            if *e < 0 {
                Err(BuiltinError::NegativeExponent)
            } else {
                match checked_power(*x, *e) {
                    Some(v) => Ok(Object::Number(v)),
                    None => Err(BuiltinError::Overflow { function: Builtin::Pow }),
                }
            }
        },
        _ => Err(BuiltinError::ArgumentTypes { function: Builtin::Pow }),
    }
}

/// `floor`, `ceil` and `round`: every number is already whole.
fn builtin_whole(b: Builtin, args: &Vec<Object>) -> (r: Result<Object, BuiltinError>)
    requires
        args@.len() == 1,
        b is Floor || b is Ceil || b is Round,
    ensures
        result_view(r) == apply_builtin(b, views(args@)),
{
    proof {
        assert(views(args@)[0] == args@[0]@);
    }
    let n = one_number(b, args)?;
    Ok(Object::Number(n))
}

proof fn lemma_extreme_error_stays(b: Builtin, a: Seq<ObjectView>, i: int, n: int, least: bool)
    requires
        1 <= i <= n <= a.len(),
        extreme_of(b, a, i, least) is Err,
    ensures
        extreme_of(b, a, n, least) == extreme_of(b, a, i, least),
    decreases n - i,
{
    if i < n {
        lemma_extreme_error_stays(b, a, i, n - 1, least);
    }
}

fn builtin_extreme(b: Builtin, args: &Vec<Object>, least: bool) -> (r: Result<Object, BuiltinError>)
    requires
        args@.len() >= 1,
        (b is Min && least) || (b is Max && !least),
    ensures
        result_view(r) == apply_builtin(b, views(args@)),
{
    let ghost a = views(args@);
    let mut m: i64 = 0;
    let mut i: usize = 0;
    while i < args.len()
        invariant
            0 <= i <= args@.len(),
            a == views(args@),
            (b is Min && least) || (b is Max && !least),
            i > 0 ==> extreme_of(b, a, i as int, least) == Ok::<int, BuiltinError>(m as int),
        decreases args@.len() - i,
    {
        proof {
            assert(a[i as int] == args@[i as int]@);
        }
        match &args[i] {
            Object::Number(x) => {
                if i == 0 || (least && *x < m) || (!least && *x > m) {
                    m = *x;
                }
                assert(extreme_of(b, a, i + 1, least) == Ok::<int, BuiltinError>(m as int));
            },
            other => {
                proof {
                    assert(extreme_of(b, a, i + 1, least) == Err::<int, BuiltinError>(
                        BuiltinError::NotSupported { function: b, kind: tag_of(a[i as int]) },
                    ));
                    lemma_extreme_error_stays(b, a, i + 1, a.len() as int, least);
                }
                return Err(BuiltinError::NotSupported { function: b, kind: other.type_tag() });
            },
        }
        i = i + 1;
    }
    Ok(Object::Number(m))
}

fn builtin_substr(args: &Vec<Object>) -> (r: Result<Object, BuiltinError>)
    requires
        args@.len() == 3,
    ensures
        result_view(r) == apply_builtin(Builtin::Substr, views(args@)),
{
    proof {
        assert(views(args@)[0] == args@[0]@);
        assert(views(args@)[1] == args@[1]@);
        assert(views(args@)[2] == args@[2]@);
    }
    match (&args[0], &args[1], &args[2]) {
        (Object::String(s), Object::Number(start), Object::Number(len)) => {
            let n = s.as_str().unicode_len();
            let st: i128 = if *start < 0 {
                0
            } else {
                *start as i128
            };
            let ln: i128 = if *len < 0 {
                0
            } else {
                *len as i128
            };
            if st >= n as i128 {
                let r = String::new();
                Ok(Object::String(r))
            } else {
                let end: usize = if st + ln < n as i128 {
                    (st + ln) as usize
                } else {
                    n
                };
                let part = s.as_str().substring_char(st as usize, end);
                Ok(Object::String(String::from_str(part)))
            }
        },
        _ => Err(BuiltinError::ArgumentTypes { function: Builtin::Substr }),
    }
}

fn builtin_text(b: Builtin, args: &Vec<Object>) -> (r: Result<Object, BuiltinError>)
    requires
        args@.len() == 1,
        b is Upper || b is Lower || b is Trim,
    ensures
        result_view(r) == apply_builtin(b, views(args@)),
{
    proof {
        assert(views(args@)[0] == args@[0]@);
    }
    match &args[0] {
        Object::String(s) => {
            let t = match b {
                Builtin::Upper => uppercase(s.as_str()),
                Builtin::Lower => lowercase(s.as_str()),
                _ => trim(s),
            };
            Ok(Object::String(t))
        },
        other => not_supported(b, other),
    }
}

fn builtin_split(args: &Vec<Object>) -> (r: Result<Object, BuiltinError>)
    requires
        args@.len() == 2,
    ensures
        result_view(r) == apply_builtin(Builtin::Split, views(args@)),
{
    proof {
        assert(views(args@)[0] == args@[0]@);
        assert(views(args@)[1] == args@[1]@);
    }
    match (&args[0], &args[1]) {
        (Object::String(s), Object::String(d)) => {
            let parts = split_text(s.as_str(), d.as_str());
            let ghost expected = split_pieces(s@, d@).map_values(|p: Seq<char>| ObjectView::Str(p));
            let mut items: Vec<Object> = Vec::new();
            let mut i: usize = 0;
            while i < parts.len()
                invariant
                    i <= parts@.len(),
                    parts@.len() == split_pieces(s@, d@).len(),
                    forall|k: int| 0 <= k < parts@.len() ==> #[trigger] parts@[k]@ == split_pieces(s@, d@)[k],
                    items@.len() == i,
                    forall|k: int| 0 <= k < i ==> #[trigger] items@[k]@ == ObjectView::Str(parts@[k]@),
                decreases parts@.len() - i,
            {
                items.push(Object::String(parts[i].clone()));
                i = i + 1;
            }
            let r = Object::Array(items);
            proof {
                assert forall|k: int| 0 <= k < expected.len() implies r@->Array_0[k] == expected[k] by {
                    assert(r@->Array_0[k] == items@[k]@);
                }
                assert(r@->Array_0 =~= expected);
            }
            Ok(r)
        },
        _ => Err(BuiltinError::ArgumentTypes { function: Builtin::Split }),
    }
}

fn builtin_join(args: &Vec<Object>) -> (r: Result<Object, BuiltinError>)
    requires
        args@.len() == 2,
    ensures
        result_view(r) == apply_builtin(Builtin::Join, views(args@)),
{
    proof {
        assert(views(args@)[0] == args@[0]@);
        assert(views(args@)[1] == args@[1]@);
    }
    match (&args[0], &args[1]) {
        (Object::Array(a), Object::String(sep)) => {
            let ghost av = args@[0]@->Array_0;
            let mut out = String::new();
            let mut i: usize = 0;
            while i < a.len()
                invariant
                    i <= a@.len(),
                    av.len() == a@.len(),
                    forall|k: int| 0 <= k < a@.len() ==> #[trigger] av[k] == a@[k]@,
                    out@ == joined(av, sep@, i as int),
                decreases a@.len() - i,
            {
                let ghost before = out@;
                if i > 0 {
                    push_str(&mut out, sep.as_str());
                }
                let ghost mid = out@;
                match &a[i] {
                    Object::String(t) => push_str(&mut out, t.as_str()),
                    other => {
                        let t = other.to_display_string();
                        push_str(&mut out, t.as_str());
                    },
                }
                proof {
                    assert(av[i as int] == a@[i as int]@);
                    assert(out@ == mid + join_piece(av[i as int]));
                    if i == 0 {
                        assert(joined(av, sep@, 1) == join_piece(av[0]));
                        assert(out@ =~= joined(av, sep@, 1));
                    } else {
                        assert(out@ =~= joined(av, sep@, i + 1));
                    }
                }
                i = i + 1;
            }
            Ok(Object::String(out))
        },
        _ => Err(BuiltinError::ArgumentTypes { function: Builtin::Join }),
    }
}

/// The integer that `s` spells, as `parse_integer` reads it.
pub fn parse_integer_text(s: &str) -> (r: Option<i64>)
    ensures
        match r {
            Some(v) => parse_integer(s@) == Some(v as int),
            None => parse_integer(s@) is None,
        },
{
    let cs = chars_of(s);
    let signed = cs.len() > 0 && (cs[0] == '-' || cs[0] == '+');
    let start: usize = if signed {
        1
    } else {
        0
    };
    if start >= cs.len() || !is_digit_char(cs[start]) {
        return None;
    }
    let negative = signed && cs[0] == '-';
    let limit: u64 = if negative {
        9223372036854775808u64
    } else {
        9223372036854775807u64
    };
    let (end, value) = scan_number_at(&cs, start, limit);
    proof {
        crate::lexer::lemma_number_advances(cs@, start as int, false, 0, true);
    }
    if end != cs.len() {
        return None;
    }
    match value {
        Some(v) => if negative {
            if v == 9223372036854775808u64 {
                Some(i64::MIN)
            } else {
                Some(-(v as i64))
            }
        } else {
            Some(v as i64)
        },
        None => None,
    }
}

fn builtin_to_number(args: &Vec<Object>) -> (r: Result<Object, BuiltinError>)
    requires
        args@.len() == 1,
    ensures
        result_view(r) == apply_builtin(Builtin::ToNumber, views(args@)),
{
    proof {
        assert(views(args@)[0] == args@[0]@);
    }
    match &args[0] {
        Object::Number(n) => Ok(Object::Number(*n)),
        Object::String(s) => match parse_integer_text(s.as_str()) {
            Some(v) => Ok(Object::Number(v)),
            None => Err(BuiltinError::NotNumeric),
        },
        Object::Boolean(b) => Ok(Object::Number(if *b { 1 } else { 0 })),
        other => not_supported(Builtin::ToNumber, other),
    }
}

fn builtin_print(args: &Vec<Object>, newline: bool, out: &mut OutputBuffer)
    ensures
        final(out).view() == old(out).view() + print_text(views(args@), args@.len() as int) + (if newline {
            seq!['\n']
        } else {
            Seq::<char>::empty()
        }),
{
    let ghost a = views(args@);
    let ghost start = out.view();
    let mut i: usize = 0;
    while i < args.len()
        invariant
            i <= args@.len(),
            a == views(args@),
            out.view() == start + print_text(a, i as int),
        decreases args@.len() - i,
    {
        if i > 0 {
            add_output(out, " ");
            proof {
                reveal_strlit(" ");
            }
        }
        let t = args[i].to_display_string();
        add_output(out, t.as_str());
        proof {
            assert(a[i as int] == args@[i as int]@);
            if i == 0 {
                assert(print_text(a, 1) == display_text(a[0]));
            }
        }
        i = i + 1;
        assert(out.view() =~= start + print_text(a, i as int));
    }
    if newline {
        add_output(out, "\n");
        proof {
            reveal_strlit("\n");
        }
    }
    assert(out.view() =~= start + print_text(a, args@.len() as int) + (if newline {
        seq!['\n']
    } else {
        Seq::<char>::empty()
    }));
}

/// Calls a native function on evaluated arguments; `print` and `println`
/// write to `out`.
pub fn call_builtin(b: Builtin, args: &Vec<Object>, out: &mut OutputBuffer) -> (r: Result<
    Object,
    BuiltinError,
>)
    ensures
        result_view(r) == builtin_result(b, views(args@)),
        final(out).view() == old(out).view() + printed(b, views(args@)),
{
    let n = args.len();
    let expected: usize = match b {
        Builtin::Print | Builtin::Println | Builtin::Min | Builtin::Max => 0,
        Builtin::Push | Builtin::Pow | Builtin::Split | Builtin::Join => 2,
        Builtin::Substr => 3,
        _ => 1,
    };
    if expected > 0 && n != expected {
        return Err(BuiltinError::ArgumentCount { function: b, got: n });
    }
    match b {
        Builtin::Print => {
            builtin_print(args, false, out);
            assert(out.view() =~= old(out).view() + printed(b, views(args@)));
            Ok(Object::Null)
        },
        Builtin::Println => {
            builtin_print(args, true, out);
            Ok(Object::Null)
        },
        Builtin::Len => builtin_len(args),
        Builtin::Push => builtin_push(args),
        Builtin::Pop => builtin_pop(args),
        Builtin::First => builtin_first(args),
        Builtin::Last => builtin_last(args),
        Builtin::Rest => builtin_rest(args),
        Builtin::Abs => builtin_abs(args),
        Builtin::Sqrt => builtin_sqrt(args),
        Builtin::Pow => builtin_pow(args),
        Builtin::Floor | Builtin::Ceil | Builtin::Round => builtin_whole(b, args),
        Builtin::Min | Builtin::Max => {
            if n == 0 {
                return Err(BuiltinError::ArgumentCount { function: b, got: 0 });
            }
            builtin_extreme(b, args, matches!(b, Builtin::Min))
        },
        Builtin::Substr => builtin_substr(args),
        Builtin::Upper | Builtin::Lower | Builtin::Trim => builtin_text(b, args),
        Builtin::Split => builtin_split(args),
        Builtin::Join => builtin_join(args),
        Builtin::Type => {
            proof {
                assert(views(args@)[0] == args@[0]@);
            }
            Ok(Object::String(String::from_str(crate::object::type_tag_name(args[0].type_tag()))))
        },
        Builtin::ToString => {
            proof {
                assert(views(args@)[0] == args@[0]@);
            }
            Ok(Object::String(args[0].to_display_string()))
        },
        Builtin::ToNumber => builtin_to_number(args),
    }
}

/// Every native function, in the order of `all_builtins`.
pub fn builtin_list() -> (r: Vec<Builtin>)
    ensures
        r@ == all_builtins(),
{
    let r = vec![Builtin::Print, Builtin::Println, Builtin::Len, Builtin::Push, Builtin::Pop, Builtin::First, Builtin::Last, Builtin::Rest, Builtin::Abs, Builtin::Sqrt, Builtin::Pow, Builtin::Floor, Builtin::Ceil, Builtin::Round, Builtin::Min, Builtin::Max, Builtin::Substr, Builtin::Upper, Builtin::Lower, Builtin::Trim, Builtin::Split, Builtin::Join, Builtin::Type, Builtin::ToString, Builtin::ToNumber];
    assert(r@ =~= all_builtins());
    r
}

/// An environment that binds each native function under its name.
pub fn get_builtins() -> (r: Environment)
    ensures
        r.wf(),
        r.view() == builtin_table(),
{
    let list = builtin_list();
    let mut env = Environment::new();
    let mut i: usize = 0;
    while i < list.len()
        invariant
            i <= list@.len(),
            list@ == all_builtins(),
            env.wf(),
            env.view() == table_prefix(i as int),
        decreases list@.len() - i,
    {
        let b = list[i];
        env.insert(String::from_str(builtin_name_str(b)), Object::BuiltinFunction(b));
        i = i + 1;
    }
    env
}

} // verus!
