//! What the operators of the language mean on values, in terms of numbers,
//! truth values and texts.

use vstd::prelude::*;

use crate::ast::{CExpr, CLit, TypeExpr};
use crate::text::bytes_of;
use crate::value::Val;

verus! {

/// The integer that a number wraps around to: they differ by a multiple of the
/// number of integers.
pub open spec fn wraps_to(n: int, r: i64) -> bool {
    (n - r) % 0x1_0000_0000_0000_0000 == 0
}

/// The size of a number.
pub open spec fn size(n: int) -> int {
    if n < 0 {
        -n
    } else {
        n
    }
}

/// `q` and `m` are the quotient and the remainder of `x` and `y`, rounded
/// towards zero: what is left over is smaller than the divisor and has the sign
/// of the dividend.
pub open spec fn divides(x: int, y: int, q: int, m: int) -> bool {
    &&& x == q * y + m
    &&& size(m) < size(y)
    &&& m != 0 ==> (m < 0 <==> x < 0)
}

/// The text comes strictly first: behind a common beginning it ends, or goes
/// on with the smaller byte.
pub open spec fn precedes(a: Seq<u8>, b: Seq<u8>) -> bool {
    exists|k: int| #[trigger] parts_at(a, b, k)
}

/// Where two byte strings part, the first one being the smaller.
pub open spec fn parts_at(a: Seq<u8>, b: Seq<u8>, k: int) -> bool {
    &&& 0 <= k <= a.len()
    &&& k < b.len()
    &&& forall|i: int| 0 <= i < k ==> a[i] == b[i]
    &&& k == a.len() || a[k] < b[k]
}

/// `x op y` is `v`, for integers.
pub open spec fn int_gives(op: Seq<char>, x: int, y: int, v: Val) -> bool {
    if op == "+"@ {
        v matches Val::Int(r) && wraps_to(x + y, r)
    } else if op == "-"@ {
        v matches Val::Int(r) && wraps_to(x - y, r)
    } else if op == "*"@ {
        v matches Val::Int(r) && wraps_to(x * y, r)
    } else if op == "/"@ {
        v matches Val::Int(r) && exists|q: int, m: int| #[trigger]
            divides(x, y, q, m) && wraps_to(q, r)
    } else if op == "%"@ {
        v matches Val::Int(r) && exists|q: int| #[trigger] divides(x, y, q, r as int)
    } else if op == "=="@ {
        v == Val::Bool(x == y)
    } else if op == "!="@ {
        v == Val::Bool(x != y)
    } else if op == "<"@ {
        v == Val::Bool(x < y)
    } else if op == "<="@ {
        v == Val::Bool(x <= y)
    } else if op == ">"@ {
        v == Val::Bool(x > y)
    } else if op == ">="@ {
        v == Val::Bool(x >= y)
    } else {
        false
    }
}

/// `a op b` is `v`, for truth values.
pub open spec fn truth_gives(op: Seq<char>, a: bool, b: bool, v: Val) -> bool {
    if op == "=="@ {
        v == Val::Bool(a == b)
    } else if op == "!="@ {
        v == Val::Bool(a != b)
    } else if op == "and"@ {
        v matches Val::Bool(r) && (r <==> a && b)
    } else if op == "or"@ {
        v matches Val::Bool(r) && (r <==> a || b)
    } else {
        false
    }
}

/// `a op b` is `v`, for texts.
pub open spec fn text_gives(op: Seq<char>, a: Seq<char>, b: Seq<char>, v: Val) -> bool {
    if op == "+"@ {
        v == Val::Str(a + b)
    } else if op == "=="@ {
        v == Val::Bool(a == b)
    } else if op == "!="@ {
        v == Val::Bool(a != b)
    } else if op == "<"@ {
        v == Val::Bool(precedes(bytes_of(a), bytes_of(b)))
    } else if op == "<="@ {
        v == Val::Bool(a == b || precedes(bytes_of(a), bytes_of(b)))
    } else if op == ">"@ {
        v == Val::Bool(precedes(bytes_of(b), bytes_of(a)))
    } else if op == ">="@ {
        v == Val::Bool(a == b || precedes(bytes_of(b), bytes_of(a)))
    } else {
        false
    }
}

/// `a op b` is `v`.
pub open spec fn gives(op: Seq<char>, a: Val, b: Val, v: Val) -> bool {
    match (a, b) {
        (Val::Int(x), Val::Int(y)) => int_gives(op, x as int, y as int, v),
        (Val::Bool(x), Val::Bool(y)) => truth_gives(op, x, y, v),
        (Val::Str(x), Val::Str(y)) => text_gives(op, x, y, v),
        _ => false,
    }
}

/// `op a` is `v`.
pub open spec fn alone_gives(op: Seq<char>, a: Val, v: Val) -> bool {
    match a {
        Val::Int(x) => op == "-"@ && (v matches Val::Int(r) && wraps_to(-x, r)),
        Val::Bool(x) => op == "not"@ && v == Val::Bool(!x),
        _ => false,
    }
}

/// The value of `a op b`, if there is one.
pub open spec fn result(op: Seq<char>, a: Val, b: Val) -> Option<Val> {
    if exists|v: Val| gives(op, a, b, v) {
        Some(choose|v: Val| gives(op, a, b, v))
    } else {
        None
    }
}

/// The value of `op a`, if there is one.
pub open spec fn lone_result(op: Seq<char>, a: Val) -> Option<Val> {
    if exists|v: Val| alone_gives(op, a, v) {
        Some(choose|v: Val| alone_gives(op, a, v))
    } else {
        None
    }
}

/// What a literal is. Byte strings are left out.
pub open spec fn literal_value(l: CLit) -> Option<Val> {
    match l {
        CLit::Int { value } => Some(Val::Int(value)),
        CLit::Float { bits, .. } => Some(Val::Float(bits)),
        CLit::Bool { value } => Some(Val::Bool(value)),
        CLit::Str { value } => Some(Val::Str(value@)),
        CLit::Bytes { .. } => None,
        CLit::Unit => Some(Val::Unit),
    }
}

/// The value is a number of the kind that its type says.
pub open spec fn of_type(ty: TypeExpr, v: Val) -> bool
    decreases ty,
{
    match ty {
        TypeExpr::Named { name, args } => {
            &&& args@.len() == 0 && name@ == "Int"@ ==> v is Int
            &&& args@.len() == 0 && name@ == "Float"@ ==> v is Float
        },
        TypeExpr::Refined { base, .. } => of_type(*base, v),
        _ => true,
    }
}

/// The value of an expression over literals, names, operators, bindings and
/// constructors, where the names stand for these values.
pub open spec fn value_of(e: CExpr, env: Map<Seq<char>, Val>) -> Option<Val>
    decreases e, 0nat,
{
    match e {
        CExpr::Literal { value } => literal_value(value),
        CExpr::Var { name } => if env.contains_key(name@) {
            Some(env[name@])
        } else {
            None
        },
        CExpr::UnaryOp { op, expr } => match value_of(*expr, env) {
            Some(a) => lone_result(op@, a),
            None => None,
        },
        CExpr::BinOp { op, lhs, rhs } => match (value_of(*lhs, env), value_of(*rhs, env)) {
            (Some(a), Some(b)) => result(op@, a, b),
            _ => None,
        },
        CExpr::Let { name, ty, value, body } => match value_of(*value, env) {
            Some(a) => if ty matches Some(t) ==> of_type(t, a) {
                value_of(*body, env.insert(name@, a))
            } else {
                None
            },
            None => None,
        },
        CExpr::TupleLit { items } => match values_of(items@, items@.len(), env) {
            Some(vs) => Some(Val::Tuple(vs)),
            None => None,
        },
        CExpr::ListLit { items } => match values_of(items@, items@.len(), env) {
            Some(vs) => Some(Val::List(vs)),
            None => None,
        },
        CExpr::Constructor { name, args } => match values_of(args@, args@.len(), env) {
            Some(vs) => Some(Val::Variant { name: name@, args: vs }),
            None => None,
        },
        _ => None,
    }
}

/// The values of the first `k` expressions.
pub open spec fn values_of(xs: Seq<CExpr>, k: nat, env: Map<Seq<char>, Val>) -> Option<Seq<Val>>
    decreases xs, k,
{
    if k == 0 || k > xs.len() {
        Some(Seq::empty())
    } else {
        match (values_of(xs, (k - 1) as nat, env), value_of(xs[k - 1], env)) {
            (Some(vs), Some(v)) => Some(vs.push(v)),
            _ => None,
        }
    }
}

/// A number by which the spellings of the operators differ.
pub open spec fn spelling(op: Seq<char>) -> int {
    op.len() * 1000 + op[0] as int
}

/// The operators are spelled differently.
pub proof fn lemma_spellings()
    ensures
        spelling("+"@) == 1043,
        spelling("-"@) == 1045,
        spelling("*"@) == 1042,
        spelling("/"@) == 1047,
        spelling("%"@) == 1037,
        spelling("=="@) == 2061,
        spelling("!="@) == 2033,
        spelling("<"@) == 1060,
        spelling("<="@) == 2060,
        spelling(">"@) == 1062,
        spelling(">="@) == 2062,
        spelling("and"@) == 3097,
        spelling("or"@) == 2111,
        spelling("not"@) == 3110,
{
    reveal_strlit("+");
    reveal_strlit("-");
    reveal_strlit("*");
    reveal_strlit("/");
    reveal_strlit("%");
    reveal_strlit("==");
    reveal_strlit("!=");
    reveal_strlit("<");
    reveal_strlit("<=");
    reveal_strlit(">");
    reveal_strlit(">=");
    reveal_strlit("and");
    reveal_strlit("or");
    reveal_strlit("not");
}

/// An integer is determined by what wraps around to it.
pub proof fn lemma_wraps_once(n: int, a: i64, b: i64)
    requires
        wraps_to(n, a),
        wraps_to(n, b),
    ensures
        a == b,
{
}

/// A quotient and a remainder are determined.
pub proof fn lemma_divides_once(x: int, y: int, q1: int, m1: int, q2: int, m2: int)
    requires
        divides(x, y, q1, m1),
        divides(x, y, q2, m2),
    ensures
        q1 == q2,
        m1 == m2,
{
    assert((q1 - q2) * y == m2 - m1) by (nonlinear_arith)
        requires
            x == q1 * y + m1,
            x == q2 * y + m2,
    ;
    assert(size(m2 - m1) < size(y));
    if q1 != q2 {
        assert(size((q1 - q2) * y) >= size(y)) by (nonlinear_arith)
            requires
                q1 != q2,
        ;
    } else {
        assert((q1 - q2) * y == 0) by (nonlinear_arith)
            requires
                q1 == q2,
        ;
    }
}

/// Law: an operator has one value at most.
pub proof fn law_operators_have_one_value(op: Seq<char>, a: Val, b: Val, v: Val, w: Val)
    requires
        gives(op, a, b, v),
        gives(op, a, b, w),
    ensures
        v == w,
{
    if let (Val::Int(x), Val::Int(y)) = (a, b) {
        let (x, y) = (x as int, y as int);
        if op == "+"@ {
            lemma_wraps_once(x + y, v->Int_0, w->Int_0);
        } else if op == "-"@ {
            lemma_wraps_once(x - y, v->Int_0, w->Int_0);
        } else if op == "*"@ {
            lemma_wraps_once(x * y, v->Int_0, w->Int_0);
        } else if op == "/"@ {
            let (q1, m1) = choose|q: int, m: int| #[trigger]
                divides(x, y, q, m) && wraps_to(q, v->Int_0);
            let (q2, m2) = choose|q: int, m: int| #[trigger]
                divides(x, y, q, m) && wraps_to(q, w->Int_0);
            lemma_divides_once(x, y, q1, m1, q2, m2);
            lemma_wraps_once(q1, v->Int_0, w->Int_0);
        } else if op == "%"@ {
            let r1 = v->Int_0 as int;
            let r2 = w->Int_0 as int;
            let q1 = choose|q: int| #[trigger] divides(x, y, q, r1);
            let q2 = choose|q: int| #[trigger] divides(x, y, q, r2);
            lemma_divides_once(x, y, q1, r1, q2, r2);
        }
    }
}

} // verus!
