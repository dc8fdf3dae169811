//! The names that an expression takes from outside: what a lambda captures.

use vstd::prelude::*;

use crate::ast::{Arm, CExpr, Param, Pattern, PatternField, RecordField};
use crate::text::{same_text, texts};

verus! {

/// The names that a pattern binds, added to others.
pub open spec fn binders(p: Pattern, bound: Set<Seq<char>>) -> Set<Seq<char>>
    decreases p, 0nat,
{
    match p {
        Pattern::PWild | Pattern::PLiteral { .. } => bound,
        Pattern::PVar { name } => bound.insert(name@),
        Pattern::PConstructor { args, .. } => binders_of(args@, args@.len(), bound),
        Pattern::PRecord { fields } => field_binders(fields@, fields@.len(), bound),
        Pattern::PTuple { items } => binders_of(items@, items@.len(), bound),
    }
}

pub open spec fn binders_of(ps: Seq<Pattern>, k: nat, bound: Set<Seq<char>>) -> Set<Seq<char>>
    decreases ps, k,
{
    if k == 0 || k > ps.len() {
        bound
    } else {
        binders(ps[k - 1], binders_of(ps, (k - 1) as nat, bound))
    }
}

pub open spec fn field_binders(fs: Seq<PatternField>, k: nat, bound: Set<Seq<char>>) -> Set<
    Seq<char>,
>
    decreases fs, k,
{
    if k == 0 || k > fs.len() {
        bound
    } else {
        binders(fs[k - 1].pattern, field_binders(fs, (k - 1) as nat, bound))
    }
}

/// The names of the parameters, added to others.
pub open spec fn param_names(ps: Seq<Param>, bound: Set<Seq<char>>) -> Set<Seq<char>>
    decreases ps.len(),
{
    if ps.len() == 0 {
        bound
    } else {
        param_names(ps.drop_last(), bound).insert(ps.last().name@)
    }
}

/// The names that an expression takes from outside, other than the bound ones,
/// added to a list in the order of their first occurrence.
pub open spec fn free(e: CExpr, bound: Set<Seq<char>>, out: Seq<Seq<char>>) -> Seq<Seq<char>>
    decreases e, 0nat,
{
    match e {
        CExpr::Literal { .. } => out,
        CExpr::Var { name } => if bound.contains(name@) || out.contains(name@) {
            out
        } else {
            out.push(name@)
        },
        CExpr::Call { callee, args, .. } => free_of(
            args@,
            args@.len(),
            bound,
            free(*callee, bound, out),
        ),
        CExpr::Let { name, value, body, .. } => free(
            *body,
            bound.insert(name@),
            free(*value, bound, out),
        ),
        CExpr::Match { scrutinee, arms } => free_of_arms(
            arms@,
            arms@.len(),
            bound,
            free(*scrutinee, bound, out),
        ),
        CExpr::Block { statements, result } => free(
            *result,
            bound,
            free_of(statements@, statements@.len(), bound, out),
        ),
        CExpr::Constructor { args, .. } => free_of(args@, args@.len(), bound, out),
        CExpr::RecordLit { fields } => free_of_fields(fields@, fields@.len(), bound, out),
        CExpr::TupleLit { items } => free_of(items@, items@.len(), bound, out),
        CExpr::ListLit { items } => free_of(items@, items@.len(), bound, out),
        CExpr::FieldAccess { value, .. } => free(*value, bound, out),
        CExpr::Lambda { params, body } => free(*body, param_names(params@, bound), out),
        CExpr::BinOp { lhs, rhs, .. } => free(*rhs, bound, free(*lhs, bound, out)),
        CExpr::UnaryOp { expr, .. } => free(*expr, bound, out),
        CExpr::Return { value } => free(*value, bound, out),
    }
}

pub open spec fn free_of(
    xs: Seq<CExpr>,
    k: nat,
    bound: Set<Seq<char>>,
    out: Seq<Seq<char>>,
) -> Seq<Seq<char>>
    decreases xs, k,
{
    if k == 0 || k > xs.len() {
        out
    } else {
        free(xs[k - 1], bound, free_of(xs, (k - 1) as nat, bound, out))
    }
}

pub open spec fn free_of_fields(
    fs: Seq<RecordField>,
    k: nat,
    bound: Set<Seq<char>>,
    out: Seq<Seq<char>>,
) -> Seq<Seq<char>>
    decreases fs, k,
{
    if k == 0 || k > fs.len() {
        out
    } else {
        free(fs[k - 1].value, bound, free_of_fields(fs, (k - 1) as nat, bound, out))
    }
}

pub open spec fn free_of_arms(
    arms: Seq<Arm>,
    k: nat,
    bound: Set<Seq<char>>,
    out: Seq<Seq<char>>,
) -> Seq<Seq<char>>
    decreases arms, k,
{
    if k == 0 || k > arms.len() {
        out
    } else {
        free(
            arms[k - 1].body,
            binders(arms[k - 1].pattern, bound),
            free_of_arms(arms, (k - 1) as nat, bound, out),
        )
    }
}

/// The texts of a list, as a set.
pub open spec fn names(v: Seq<String>) -> Set<Seq<char>> {
    Set::new(|n: Seq<char>| texts(v).contains(n))
}

proof fn lemma_names_push(v: Seq<String>, s: String)
    ensures
        names(v.push(s)) == names(v).insert(s@),
{
    let w = texts(v.push(s));
    assert(w =~= texts(v).push(s@));
    assert forall|n: Seq<char>| names(v.push(s)).contains(n) == names(v).insert(s@).contains(n) by {
        if texts(v).contains(n) {
            let i = choose|i: int| 0 <= i < texts(v).len() && texts(v)[i] == n;
            assert(w[i] == n);
        }
        assert(w[v.len() as int] == s@);
    }
    assert(names(v.push(s)) =~= names(v).insert(s@));
}

/// Whether a list holds a text.
pub fn holds(v: &Vec<String>, name: &str) -> (yes: bool)
    ensures
        yes <==> texts(v@).contains(name@),
        yes <==> names(v@).contains(name@),
{
    let mut i: usize = 0;
    while i < v.len()
        invariant
            i <= v.len(),
            forall|j: int| 0 <= j < i ==> #[trigger] texts(v@)[j] != name@,
        decreases v.len() - i,
    {
        if same_text(v[i].as_str(), name) {
            assert(texts(v@)[i as int] == name@);
            return true;
        }
        i = i + 1;
    }
    false
}

fn bind(bound: &mut Vec<String>, name: &String)
    ensures
        names(final(bound)@) == names(old(bound)@).insert(name@),
        extends(old(bound)@, final(bound)@),
{
    let copy = name.clone();
    proof {
        lemma_names_push(bound@, copy);
    }
    let ghost b0 = bound@;
    bound.push(copy);
    assert(bound@.take(b0.len() as int) =~= b0);
}

/// A list that starts with another one.
pub open spec fn extends(a: Seq<String>, b: Seq<String>) -> bool {
    a.len() <= b.len() && b.take(a.len() as int) == a
}

fn cut(bound: &mut Vec<String>, n: usize, Ghost(before): Ghost<Seq<String>>)
    requires
        n == before.len(),
        extends(before, old(bound)@),
    ensures
        final(bound)@ == before,
{
    bound.truncate(n);
    assert(bound@ =~= before);
}

/// Adds the names that a pattern binds.
pub fn pattern_binders(p: &Pattern, bound: &mut Vec<String>)
    ensures
        names(final(bound)@) == binders(*p, names(old(bound)@)),
        extends(old(bound)@, final(bound)@),
    decreases p, 0nat,
{
    match p {
        Pattern::PWild => {
            assert(bound@.take(bound@.len() as int) =~= bound@);
        },
        Pattern::PLiteral { .. } => {
            assert(bound@.take(bound@.len() as int) =~= bound@);
        },
        Pattern::PVar { name } => {
            bind(bound, name);
        },
        Pattern::PConstructor { args, .. } => {
            pattern_list_binders(args, bound);
        },
        Pattern::PRecord { fields } => {
            pattern_field_binders(fields, bound);
        },
        Pattern::PTuple { items } => {
            pattern_list_binders(items, bound);
        },
    }
}

fn pattern_list_binders(ps: &Vec<Pattern>, bound: &mut Vec<String>)
    ensures
        names(final(bound)@) == binders_of(ps@, ps@.len(), names(old(bound)@)),
        extends(old(bound)@, final(bound)@),
    decreases ps, 0nat,
{
    let ghost b0 = bound@;
    let mut k: usize = 0;
    assert(bound@.take(bound@.len() as int) =~= bound@);
    while k < ps.len()
        invariant
            k <= ps.len(),
            names(bound@) == binders_of(ps@, k as nat, names(b0)),
            extends(b0, bound@),
        decreases ps.len() - k,
    {
        let ghost b1 = bound@;
        pattern_binders(&ps[k], bound);
        assert(bound@.take(b0.len() as int) =~= b1.take(b0.len() as int)) by {
            assert(b1 == bound@.take(b1.len() as int));
        }
        k = k + 1;
    }
}

fn pattern_field_binders(fs: &Vec<PatternField>, bound: &mut Vec<String>)
    ensures
        names(final(bound)@) == field_binders(fs@, fs@.len(), names(old(bound)@)),
        extends(old(bound)@, final(bound)@),
    decreases fs, 0nat,
{
    let ghost b0 = bound@;
    let mut k: usize = 0;
    assert(bound@.take(bound@.len() as int) =~= bound@);
    while k < fs.len()
        invariant
            k <= fs.len(),
            names(bound@) == field_binders(fs@, k as nat, names(b0)),
            extends(b0, bound@),
        decreases fs.len() - k,
    {
        let ghost b1 = bound@;
        let f = &fs[k];
        assert(decreases_to!(fs => fs@[k as int]));
        pattern_binders(&f.pattern, bound);
        assert(bound@.take(b0.len() as int) =~= b1.take(b0.len() as int)) by {
            assert(b1 == bound@.take(b1.len() as int));
        }
        k = k + 1;
    }
}

/// Adds the free names of an expression to a list.
pub fn free_vars(e: &CExpr, bound: &mut Vec<String>, out: &mut Vec<String>)
    ensures
        final(bound)@ == old(bound)@,
        texts(final(out)@) == free(*e, names(old(bound)@), texts(old(out)@)),
    decreases e, 0nat,
{
    let n: usize = bound.len();
    let ghost b0 = bound@;
    match e {
        CExpr::Literal { .. } => {},
        CExpr::Var { name } => {
            if !holds(bound, name.as_str()) && !holds(out, name.as_str()) {
                let ghost o = out@;
                let copy = name.clone();
                out.push(copy);
                assert(texts(out@) =~= texts(o).push(name@));
            }
        },
        CExpr::Call { callee, args, .. } => {
            free_vars(callee, bound, out);
            free_vars_of(args, bound, out);
        },
        CExpr::Let { name, value, body, .. } => {
            free_vars(value, bound, out);
            bind(bound, name);
            free_vars(body, bound, out);
            cut(bound, n, Ghost(b0));
        },
        CExpr::Match { scrutinee, arms } => {
            free_vars(scrutinee, bound, out);
            free_vars_of_arms(arms, bound, out);
        },
        CExpr::Block { statements, result } => {
            free_vars_of(statements, bound, out);
            free_vars(result, bound, out);
        },
        CExpr::Constructor { args, .. } => {
            free_vars_of(args, bound, out);
        },
        CExpr::RecordLit { fields } => {
            free_vars_of_fields(fields, bound, out);
        },
        CExpr::TupleLit { items } => {
            free_vars_of(items, bound, out);
        },
        CExpr::ListLit { items } => {
            free_vars_of(items, bound, out);
        },
        CExpr::FieldAccess { value, .. } => {
            free_vars(value, bound, out);
        },
        CExpr::Lambda { params, body } => {
            bind_params(params, bound);
            free_vars(body, bound, out);
            cut(bound, n, Ghost(b0));
        },
        CExpr::BinOp { lhs, rhs, .. } => {
            free_vars(lhs, bound, out);
            free_vars(rhs, bound, out);
        },
        CExpr::UnaryOp { expr, .. } => {
            free_vars(expr, bound, out);
        },
        CExpr::Return { value } => {
            free_vars(value, bound, out);
        },
    }
}

fn free_vars_of(xs: &Vec<CExpr>, bound: &mut Vec<String>, out: &mut Vec<String>)
    ensures
        final(bound)@ == old(bound)@,
        texts(final(out)@) == free_of(xs@, xs@.len(), names(old(bound)@), texts(old(out)@)),
    decreases xs, 0nat,
{
    let ghost b0 = bound@;
    let ghost o = texts(out@);
    let mut k: usize = 0;
    while k < xs.len()
        invariant
            k <= xs.len(),
            bound@ == b0,
            texts(out@) == free_of(xs@, k as nat, names(b0), o),
        decreases xs.len() - k,
    {
        free_vars(&xs[k], bound, out);
        k = k + 1;
    }
}

fn free_vars_of_fields(fs: &Vec<RecordField>, bound: &mut Vec<String>, out: &mut Vec<String>)
    ensures
        final(bound)@ == old(bound)@,
        texts(final(out)@) == free_of_fields(fs@, fs@.len(), names(old(bound)@), texts(old(out)@)),
    decreases fs, 0nat,
{
    let ghost b0 = bound@;
    let ghost o = texts(out@);
    let mut k: usize = 0;
    while k < fs.len()
        invariant
            k <= fs.len(),
            bound@ == b0,
            texts(out@) == free_of_fields(fs@, k as nat, names(b0), o),
        decreases fs.len() - k,
    {
        let f = &fs[k];
        assert(decreases_to!(fs => fs@[k as int]));
        free_vars(&f.value, bound, out);
        k = k + 1;
    }
}

fn free_vars_of_arms(arms: &Vec<Arm>, bound: &mut Vec<String>, out: &mut Vec<String>)
    ensures
        final(bound)@ == old(bound)@,
        texts(final(out)@) == free_of_arms(
            arms@,
            arms@.len(),
            names(old(bound)@),
            texts(old(out)@),
        ),
    decreases arms, 0nat,
{
    let n: usize = bound.len();
    let ghost b0 = bound@;
    let ghost o = texts(out@);
    let mut k: usize = 0;
    while k < arms.len()
        invariant
            k <= arms.len(),
            n == b0.len(),
            bound@ == b0,
            texts(out@) == free_of_arms(arms@, k as nat, names(b0), o),
        decreases arms.len() - k,
    {
        let arm = &arms[k];
        assert(decreases_to!(arms => arms@[k as int]));
        pattern_binders(&arm.pattern, bound);
        free_vars(&arm.body, bound, out);
        cut(bound, n, Ghost(b0));
        k = k + 1;
    }
}

/// Adds the names of the parameters.
pub fn bind_params(ps: &Vec<Param>, bound: &mut Vec<String>)
    ensures
        names(final(bound)@) == param_names(ps@, names(old(bound)@)),
        extends(old(bound)@, final(bound)@),
{
    let ghost b0 = bound@;
    let mut k: usize = 0;
    assert(bound@.take(bound@.len() as int) =~= bound@);
    while k < ps.len()
        invariant
            k <= ps.len(),
            names(bound@) == param_names(ps@.take(k as int), names(b0)),
            extends(b0, bound@),
        decreases ps.len() - k,
    {
        let ghost b1 = bound@;
        bind(bound, &ps[k].name);
        assert(ps@.take(k + 1).drop_last() =~= ps@.take(k as int));
        assert(bound@.take(b0.len() as int) =~= b1.take(b0.len() as int)) by {
            assert(b1 == bound@.take(b1.len() as int));
        }
        k = k + 1;
    }
    assert(ps@.take(k as int) =~= ps@);
}

// ---------------------------------------------------------------------------
// Laws
// ---------------------------------------------------------------------------

/// Whether a pattern binds a name.
pub open spec fn binds(p: Pattern, n: Seq<char>) -> bool {
    binders(p, Set::empty()).contains(n)
}

/// Whether an expression refers to a name that it does not bind itself.
pub open spec fn mentions(e: CExpr, n: Seq<char>) -> bool
    decreases e, 0nat,
{
    match e {
        CExpr::Literal { .. } => false,
        CExpr::Var { name } => name@ == n,
        CExpr::Call { callee, args, .. } => mentions(*callee, n) || any_mentions(
            args@,
            args@.len(),
            n,
        ),
        CExpr::Let { name, value, body, .. } => mentions(*value, n) || (name@ != n && mentions(
            *body,
            n,
        )),
        CExpr::Match { scrutinee, arms } => mentions(*scrutinee, n) || any_arm_mentions(
            arms@,
            arms@.len(),
            n,
        ),
        CExpr::Block { statements, result } => any_mentions(statements@, statements@.len(), n)
            || mentions(*result, n),
        CExpr::Constructor { args, .. } => any_mentions(args@, args@.len(), n),
        CExpr::RecordLit { fields } => any_field_mentions(fields@, fields@.len(), n),
        CExpr::TupleLit { items } => any_mentions(items@, items@.len(), n),
        CExpr::ListLit { items } => any_mentions(items@, items@.len(), n),
        CExpr::FieldAccess { value, .. } => mentions(*value, n),
        CExpr::Lambda { params, body } => !param_names(params@, Set::empty()).contains(n)
            && mentions(*body, n),
        CExpr::BinOp { lhs, rhs, .. } => mentions(*lhs, n) || mentions(*rhs, n),
        CExpr::UnaryOp { expr, .. } => mentions(*expr, n),
        CExpr::Return { value } => mentions(*value, n),
    }
}

pub open spec fn any_mentions(xs: Seq<CExpr>, k: nat, n: Seq<char>) -> bool
    decreases xs, k,
{
    if k == 0 || k > xs.len() {
        false
    } else {
        any_mentions(xs, (k - 1) as nat, n) || mentions(xs[k - 1], n)
    }
}

pub open spec fn any_field_mentions(fs: Seq<RecordField>, k: nat, n: Seq<char>) -> bool
    decreases fs, k,
{
    if k == 0 || k > fs.len() {
        false
    } else {
        any_field_mentions(fs, (k - 1) as nat, n) || mentions(fs[k - 1].value, n)
    }
}

pub open spec fn any_arm_mentions(arms: Seq<Arm>, k: nat, n: Seq<char>) -> bool
    decreases arms, k,
{
    if k == 0 || k > arms.len() {
        false
    } else {
        any_arm_mentions(arms, (k - 1) as nat, n) || (!binds(arms[k - 1].pattern, n) && mentions(
            arms[k - 1].body,
            n,
        ))
    }
}

proof fn lemma_binders(p: Pattern, bound: Set<Seq<char>>, n: Seq<char>)
    ensures
        binders(p, bound).contains(n) <==> bound.contains(n) || binds(p, n),
    decreases p, 0nat,
{
    match p {
        Pattern::PConstructor { args, .. } => {
            lemma_binders_of(args@, args@.len(), bound, n);
            lemma_binders_of(args@, args@.len(), Set::empty(), n);
        },
        Pattern::PRecord { fields } => {
            lemma_field_binders(fields@, fields@.len(), bound, n);
            lemma_field_binders(fields@, fields@.len(), Set::empty(), n);
        },
        Pattern::PTuple { items } => {
            lemma_binders_of(items@, items@.len(), bound, n);
            lemma_binders_of(items@, items@.len(), Set::empty(), n);
        },
        _ => {},
    }
}

proof fn lemma_binders_of(ps: Seq<Pattern>, k: nat, bound: Set<Seq<char>>, n: Seq<char>)
    ensures
        binders_of(ps, k, bound).contains(n) <==> bound.contains(n) || binders_of(
            ps,
            k,
            Set::empty(),
        ).contains(n),
    decreases ps, k,
{
    if k == 0 || k > ps.len() {
    } else {
        lemma_binders_of(ps, (k - 1) as nat, bound, n);
        lemma_binders(ps[k - 1], binders_of(ps, (k - 1) as nat, bound), n);
        lemma_binders(ps[k - 1], binders_of(ps, (k - 1) as nat, Set::empty()), n);
    }
}

proof fn lemma_field_binders(fs: Seq<PatternField>, k: nat, bound: Set<Seq<char>>, n: Seq<char>)
    ensures
        field_binders(fs, k, bound).contains(n) <==> bound.contains(n) || field_binders(
            fs,
            k,
            Set::empty(),
        ).contains(n),
    decreases fs, k,
{
    if k == 0 || k > fs.len() {
    } else {
        lemma_field_binders(fs, (k - 1) as nat, bound, n);
        lemma_binders(fs[k - 1].pattern, field_binders(fs, (k - 1) as nat, bound), n);
        lemma_binders(fs[k - 1].pattern, field_binders(fs, (k - 1) as nat, Set::empty()), n);
    }
}

proof fn lemma_param_names(ps: Seq<Param>, bound: Set<Seq<char>>, n: Seq<char>)
    ensures
        param_names(ps, bound).contains(n) <==> bound.contains(n) || param_names(
            ps,
            Set::empty(),
        ).contains(n),
    decreases ps.len(),
{
    if ps.len() > 0 {
        lemma_param_names(ps.drop_last(), bound, n);
    }
}

/// Law: a lambda captures each name that its body takes from outside, no other
/// name, and none twice.
pub proof fn law_free_names_are_the_mentioned_ones(
    e: CExpr,
    bound: Set<Seq<char>>,
    out: Seq<Seq<char>>,
    n: Seq<char>,
)
    ensures
        free(e, bound, out).contains(n) <==> out.contains(n) || (!bound.contains(n) && mentions(
            e,
            n,
        )),
        out.no_duplicates() ==> free(e, bound, out).no_duplicates(),
    decreases e, 0nat,
{
    match e {
        CExpr::Literal { .. } => {},
        CExpr::Var { name } => {
            if !bound.contains(name@) && !out.contains(name@) {
                let w = out.push(name@);
                assert(w[out.len() as int] == name@);
                if out.contains(n) {
                    let i = choose|i: int| 0 <= i < out.len() && out[i] == n;
                    assert(w[i] == n);
                }
                if w.contains(n) && n != name@ {
                    let i = choose|i: int| 0 <= i < w.len() && w[i] == n;
                    assert(out[i] == n);
                }
            }
        },
        CExpr::Call { callee, args, .. } => {
            law_free_names_are_the_mentioned_ones(*callee, bound, out, n);
            lemma_free_of(args@, args@.len(), bound, free(*callee, bound, out), n);
        },
        CExpr::Let { name, value, body, .. } => {
            law_free_names_are_the_mentioned_ones(*value, bound, out, n);
            law_free_names_are_the_mentioned_ones(
                *body,
                bound.insert(name@),
                free(*value, bound, out),
                n,
            );
        },
        CExpr::Match { scrutinee, arms } => {
            law_free_names_are_the_mentioned_ones(*scrutinee, bound, out, n);
            lemma_free_of_arms(arms@, arms@.len(), bound, free(*scrutinee, bound, out), n);
        },
        CExpr::Block { statements, result } => {
            lemma_free_of(statements@, statements@.len(), bound, out, n);
            law_free_names_are_the_mentioned_ones(
                *result,
                bound,
                free_of(statements@, statements@.len(), bound, out),
                n,
            );
        },
        CExpr::Constructor { args, .. } => {
            lemma_free_of(args@, args@.len(), bound, out, n);
        },
        CExpr::RecordLit { fields } => {
            lemma_free_of_fields(fields@, fields@.len(), bound, out, n);
        },
        CExpr::TupleLit { items } => {
            lemma_free_of(items@, items@.len(), bound, out, n);
        },
        CExpr::ListLit { items } => {
            lemma_free_of(items@, items@.len(), bound, out, n);
        },
        CExpr::FieldAccess { value, .. } => {
            law_free_names_are_the_mentioned_ones(*value, bound, out, n);
        },
        CExpr::Lambda { params, body } => {
            lemma_param_names(params@, bound, n);
            law_free_names_are_the_mentioned_ones(*body, param_names(params@, bound), out, n);
        },
        CExpr::BinOp { lhs, rhs, .. } => {
            law_free_names_are_the_mentioned_ones(*lhs, bound, out, n);
            law_free_names_are_the_mentioned_ones(*rhs, bound, free(*lhs, bound, out), n);
        },
        CExpr::UnaryOp { expr, .. } => {
            law_free_names_are_the_mentioned_ones(*expr, bound, out, n);
        },
        CExpr::Return { value } => {
            law_free_names_are_the_mentioned_ones(*value, bound, out, n);
        },
    }
}

proof fn lemma_free_of(
    xs: Seq<CExpr>,
    k: nat,
    bound: Set<Seq<char>>,
    out: Seq<Seq<char>>,
    n: Seq<char>,
)
    ensures
        free_of(xs, k, bound, out).contains(n) <==> out.contains(n) || (!bound.contains(n)
            && any_mentions(xs, k, n)),
        out.no_duplicates() ==> free_of(xs, k, bound, out).no_duplicates(),
    decreases xs, k,
{
    if k == 0 || k > xs.len() {
    } else {
        lemma_free_of(xs, (k - 1) as nat, bound, out, n);
        law_free_names_are_the_mentioned_ones(
            xs[k - 1],
            bound,
            free_of(xs, (k - 1) as nat, bound, out),
            n,
        );
    }
}

proof fn lemma_free_of_fields(
    fs: Seq<RecordField>,
    k: nat,
    bound: Set<Seq<char>>,
    out: Seq<Seq<char>>,
    n: Seq<char>,
)
    ensures
        free_of_fields(fs, k, bound, out).contains(n) <==> out.contains(n) || (!bound.contains(n)
            && any_field_mentions(fs, k, n)),
        out.no_duplicates() ==> free_of_fields(fs, k, bound, out).no_duplicates(),
    decreases fs, k,
{
    if k == 0 || k > fs.len() {
    } else {
        lemma_free_of_fields(fs, (k - 1) as nat, bound, out, n);
        law_free_names_are_the_mentioned_ones(
            fs[k - 1].value,
            bound,
            free_of_fields(fs, (k - 1) as nat, bound, out),
            n,
        );
    }
}

proof fn lemma_free_of_arms(
    arms: Seq<Arm>,
    k: nat,
    bound: Set<Seq<char>>,
    out: Seq<Seq<char>>,
    n: Seq<char>,
)
    ensures
        free_of_arms(arms, k, bound, out).contains(n) <==> out.contains(n) || (!bound.contains(n)
            && any_arm_mentions(arms, k, n)),
        out.no_duplicates() ==> free_of_arms(arms, k, bound, out).no_duplicates(),
    decreases arms, k,
{
    if k == 0 || k > arms.len() {
    } else {
        lemma_free_of_arms(arms, (k - 1) as nat, bound, out, n);
        lemma_binders(arms[k - 1].pattern, bound, n);
        law_free_names_are_the_mentioned_ones(
            arms[k - 1].body,
            binders(arms[k - 1].pattern, bound),
            free_of_arms(arms, (k - 1) as nat, bound, out),
            n,
        );
    }
}

} // verus!
