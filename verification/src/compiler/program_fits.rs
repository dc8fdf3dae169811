//! Every function of a compiled program finds what its code refers to.

use vstd::prelude::*;

use crate::ast::{FnDecl, Param, Stage};
use crate::compiler::assembly::{
    compiled_decl, compiled_decls, compiled_lambda, declaration, declared, draft_of, drained,
    finished, globals, lemma_next_lambda, next_lambda, numbered, opened, started, with_captures,
    with_lambda_params, with_params, with_typed_local,
};
use crate::compiler::draft::{with_local, Draft, Globals, LambdaJob};
use crate::compiler::expr::expr;
use crate::compiler::expr_fits::lemma_expr_keeps;
use crate::compiler::numeric::{fields_of_type, type_num, NumTy};
use crate::compiler::queue::queued;
use crate::compiler::soundness::{
    body_fits, coded, fine, function_fits, keeps, lemma_coded_same, lemma_keeps, lemma_with_local,
    pool_grew, shapes_fit, small, sound, waits,
};
use crate::op::Op;

verus! {

broadcast use {crate::compiler::draft::lemma_with_local, lemma_coded_same};

/// What the start of another body does not undo either.
pub open spec fn advanced(s: Draft, t: Draft) -> bool {
    &&& pool_grew(s.pool, t.pool)
    &&& s.functions.len() <= t.functions.len()
    &&& t.fault is None ==> s.fault is None
}

proof fn lemma_advanced(a: Draft, b: Draft, c: Draft)
    requires
        advanced(a, b),
        advanced(b, c),
    ensures
        advanced(a, c),
        fine(c) ==> fine(b),
{
    assert forall|i: int| 0 <= i < a.pool.consts.len() implies #[trigger] c.pool.consts[i]
        == a.pool.consts[i] by {
        assert(b.pool.consts[i] == a.pool.consts[i]);
    }
    assert forall|i: int| 0 <= i < a.pool.shapes.len() implies #[trigger] c.pool.shapes[i]
        == a.pool.shapes[i] by {
        assert(b.pool.shapes[i] == a.pool.shapes[i]);
    }
}

proof fn lemma_typed_local(g: Globals, s: Draft, name: Seq<char>, t: NumTy)
    ensures
        keeps(g, s, with_typed_local(s, name, t)),
{
    lemma_with_local(g, s, name);
    let b = with_local(s, name);
    assert(keeps(g, b, with_typed_local(s, name, t)));
    lemma_keeps(g, s, b, with_typed_local(s, name, t));
}

proof fn lemma_captures(g: Globals, s: Draft, names: Seq<Seq<char>>, k: nat)
    ensures
        keeps(g, s, with_captures(s, names, k)),
    decreases k,
{
    if k == 0 || k > names.len() {
    } else {
        let a = with_captures(s, names, (k - 1) as nat);
        lemma_captures(g, s, names, (k - 1) as nat);
        lemma_typed_local(g, a, names[k - 1], NumTy::Unknown);
        lemma_keeps(g, s, a, with_captures(s, names, k));
    }
}

proof fn lemma_lambda_params(g: Globals, s: Draft, ps: Seq<Param>, k: nat)
    ensures
        keeps(g, s, with_lambda_params(s, ps, k)),
    decreases k,
{
    if k == 0 || k > ps.len() {
    } else {
        let a = with_lambda_params(s, ps, (k - 1) as nat);
        lemma_lambda_params(g, s, ps, (k - 1) as nat);
        lemma_typed_local(g, a, ps[k - 1].name@, type_num(ps[k - 1].ty));
        lemma_keeps(g, s, a, with_lambda_params(s, ps, k));
    }
}

proof fn lemma_params(g: Globals, s: Draft, ps: Seq<Param>, k: nat, stages: Seq<Stage>)
    ensures
        keeps(g, s, with_params(s, ps, k, stages)),
    decreases k,
{
    if k == 0 || k > ps.len() {
    } else {
        let p = ps[k - 1];
        let a = with_params(s, ps, (k - 1) as nat, stages);
        let b = with_typed_local(a, p.name@, type_num(p.ty));
        let t = with_params(s, ps, k, stages);
        lemma_params(g, s, ps, (k - 1) as nat, stages);
        lemma_typed_local(g, a, p.name@, type_num(p.ty));
        lemma_keeps(g, s, a, b);
        match fields_of_type(p.ty, stages, stages.len()) {
            Some(fields) => {
                assert(t == (Draft { records: b.records.insert(p.name@, fields), ..b }));
            },
            None => {
                assert(t == b);
            },
        }
        assert(keeps(g, b, t));
        lemma_keeps(g, s, b, t);
    }
}

/// The start of a body.
proof fn lemma_started(g: Globals, s: Draft)
    ensures
        advanced(s, started(s)),
        sound(g, s) ==> sound(g, started(s)),
{
}

/// The end of a body: its code fits in the function that it becomes part of.
proof fn lemma_finished(g: Globals, s: Draft, fn_id: u32)
    ensures
        advanced(s, finished(s, fn_id)),
        sound(g, s) ==> sound(g, finished(s, fn_id)),
{
    let t = finished(s, fn_id);
    if sound(g, s) && fn_id < s.functions.len() {
        let code = s.code.push(Op::Return);
        if code.len() <= i32::MAX {
            crate::compiler::soundness::lemma_fits_push(
                s.code,
                Op::Return,
                0,
                s.code.len() as int,
                s.pool,
                s.functions.len(),
                s.peak_local,
            );
        }
        assert(body_fits(code, s.pool, s.functions.len(), s.peak_local));
        assert forall|i: int| 0 <= i < t.functions.len() implies function_fits(
            #[trigger] t.functions[i],
            t.pool,
            t.functions.len(),
        ) by {
            if i != fn_id {
                assert(t.functions[i] == s.functions[i]);
            }
        }
    }
}

proof fn lemma_decl(g: Globals, s: Draft, d: FnDecl, stages: Seq<Stage>)
    ensures
        advanced(s, compiled_decl(g, s, d, stages)),
        sound(g, s) && fine(compiled_decl(g, s, d, stages)) ==> sound(
            g,
            compiled_decl(g, s, d, stages),
        ),
{
    let s1 = started(s);
    let a = with_params(s1, d.params@, d.params@.len(), stages);
    let b = expr(g, a, d.body, true);
    let t = compiled_decl(g, s, d, stages);
    lemma_started(g, s);
    lemma_params(g, s1, d.params@, d.params@.len(), stages);
    lemma_expr_keeps(g, a, d.body, true);
    lemma_keeps(g, s1, a, b);
    lemma_advanced(s, s1, b);
    if g.functions.contains_key(d.name@) {
        lemma_finished(g, b, g.functions[d.name@]);
    }
    lemma_advanced(s1, b, t);
    lemma_advanced(s, s1, t);
}

proof fn lemma_decls(g: Globals, s: Draft, stages: Seq<Stage>, k: nat)
    ensures
        advanced(s, compiled_decls(g, s, stages, k)),
        sound(g, s) && fine(compiled_decls(g, s, stages, k)) ==> sound(
            g,
            compiled_decls(g, s, stages, k),
        ),
    decreases k,
{
    if k == 0 || k > stages.len() {
    } else {
        let a = compiled_decls(g, s, stages, (k - 1) as nat);
        lemma_decls(g, s, stages, (k - 1) as nat);
        match stages[k - 1] {
            Stage::FnDecl(d) => {
                lemma_decl(g, a, d, stages);
                lemma_advanced(s, a, compiled_decl(g, a, d, stages));
            },
            _ => {},
        }
    }
}

proof fn lemma_compiled_lambda(g: Globals, s: Draft, job: LambdaJob)
    ensures
        advanced(s, compiled_lambda(g, s, job)),
        sound(g, s) && fine(compiled_lambda(g, s, job)) ==> sound(g, compiled_lambda(g, s, job)),
{
    let s1 = started(s);
    let a = with_captures(s1, job.captures, job.captures.len());
    let b = with_lambda_params(a, job.params, job.params.len());
    let d = expr(g, b, job.body, true);
    let t = compiled_lambda(g, s, job);
    lemma_started(g, s);
    lemma_captures(g, s1, job.captures, job.captures.len());
    lemma_lambda_params(g, a, job.params, job.params.len());
    lemma_keeps(g, s1, a, b);
    lemma_expr_keeps(g, b, job.body, true);
    lemma_keeps(g, s1, b, d);
    lemma_finished(g, d, job.fn_id);
    lemma_advanced(s1, d, t);
    lemma_advanced(s, s1, t);
}

proof fn lemma_drained(g: Globals, s: Draft)
    ensures
        advanced(s, drained(g, s)),
        sound(g, s) && fine(drained(g, s)) ==> sound(g, drained(g, s)),
    decreases queued(s.pending),
{
    if s.pending.len() > 0 {
        let s1 = Draft { pending: s.pending.drop_last(), ..s };
        let t = next_lambda(g, s);
        lemma_next_lambda(g, s);
        lemma_compiled_lambda(g, s1, s.pending.last());
        lemma_advanced(s, s1, t);
        lemma_drained(g, t);
        lemma_advanced(s, t, drained(g, t));
        if sound(g, s) {
            assert forall|i: int| 0 <= i < s1.pending.len() implies (#[trigger] s1.pending[i]).fn_id
                < s1.functions.len() by {
                assert(s1.pending[i] == s.pending[i]);
            }
        }
    }
}

proof fn lemma_numbered(stages: Seq<Stage>)
    requires
        declared(stages).len() <= u32::MAX,
    ensures
        forall|name: Seq<char>| #[trigger]
            numbered(stages).contains_key(name) ==> numbered(stages)[name] < declared(stages).len(),
        forall|i: int|
            0 <= i < declared(stages).len() ==> (#[trigger] declared(stages)[i]).code.len() == 0,
    decreases stages.len(),
{
    if stages.len() > 0 {
        let rest = stages.drop_last();
        lemma_numbered(rest);
        match stages.last() {
            Stage::FnDecl(d) => {
                assert(declared(stages) == declared(rest).push(declaration(d)));
                assert(numbered(stages) == numbered(rest).insert(
                    d.name@,
                    declared(rest).len() as u32,
                ));
            },
            _ => {
                assert(declared(stages) == declared(rest));
                assert(numbered(stages) == numbered(rest));
            },
        }
    }
}

/// Law: in a program that compiles without an error, and whose numbers have
/// room, the code of every function that has code ends with a return, and
/// where it is so short that jumps reach all of it, every op finds what it
/// refers to: its constants are there and of the right kind, its locals are
/// locals of the function, its record shapes list field names, its functions
/// exist, and its jumps stay inside the code.
pub proof fn law_compiled_code_fits(stages: Seq<Stage>, i: int)
    requires
        draft_of(stages).fault is None,
        small(draft_of(stages)),
        0 <= i < draft_of(stages).functions.len(),
    ensures
        function_fits(
            draft_of(stages).functions[i],
            draft_of(stages).pool,
            draft_of(stages).functions.len(),
        ),
        shapes_fit(draft_of(stages).pool),
{
    let g = globals(stages, true);
    let h = globals(stages, false);
    let s = opened(stages);
    let a = compiled_decls(g, s, stages, stages.len());
    let t = draft_of(stages);
    lemma_decls(g, s, stages, stages.len());
    lemma_drained(h, a);
    lemma_advanced(s, a, t);
    lemma_numbered(stages);
    assert(sound(g, s));
    assert(sound(h, a));
}

// ---------------------------------------------------------------------------
// Every function gets its code
// ---------------------------------------------------------------------------

/// Functions that have code keep having code.
pub open spec fn code_stays(s: Draft, t: Draft) -> bool {
    &&& s.functions.len() <= t.functions.len()
    &&& forall|j: int|
        0 <= j < s.functions.len() && (#[trigger] s.functions[j]).code.len() > 0
            ==> t.functions[j].code.len() > 0
}

/// The functions from `from` on have code or wait for it in the queue.
pub open spec fn served(s: Draft, from: int) -> bool {
    forall|j: int|
        from <= j < s.functions.len() && j <= u32::MAX ==> (#[trigger] s.functions[j]).code.len()
            > 0 || waits(0, s, j)
}

/// Whether the functions among the first `k` declarations have code, those
/// whose name is declared again left aside.
pub open spec fn declared_served(g: Globals, s: Draft, stages: Seq<Stage>, k: nat) -> bool {
    forall|i: int|
        0 <= i < k && i < stages.len() ==> (#[trigger] stages[i] matches Stage::FnDecl(d) ==> {
            let id = g.functions[d.name@];
            g.functions.contains_key(d.name@) && id < s.functions.len()
                ==> s.functions[id as int].code.len() > 0
        })
}

/// Compiling a body serves what it adds.
proof fn lemma_served(s: Draft, t: Draft, from: int)
    requires
        coded(s, t),
        served(s, from),
        0 <= from <= s.functions.len(),
    ensures
        served(t, from),
        code_stays(s, t),
{
    reveal(coded);
    assert forall|j: int| from <= j < t.functions.len() && j <= u32::MAX implies (
    #[trigger] t.functions[j]).code.len() > 0 || waits(0, t, j) by {
        if j < s.functions.len() {
            assert(t.functions[j] == s.functions[j]);
            if waits(0, s, j) {
                let k = choose|k: int|
                    0 <= k < s.pending.len() && (#[trigger] s.pending[k]).fn_id == j;
                assert(t.pending[k] == s.pending[k]);
            }
        } else if waits(s.pending.len() as int, t, j) {
            let k = choose|k: int|
                s.pending.len() <= k < t.pending.len() && (#[trigger] t.pending[k]).fn_id == j;
            assert(t.pending[k].fn_id == j);
        }
    }
}

/// The end of a body serves its function.
proof fn lemma_finished_serves(s: Draft, fn_id: u32, from: int)
    ensures
        0 <= from && served(s, from) ==> served(finished(s, fn_id), from),
        code_stays(s, finished(s, fn_id)),
        fn_id < s.functions.len() ==> finished(s, fn_id).functions[fn_id as int].code.len() > 0,
{
    let t = finished(s, fn_id);
    if 0 <= from && served(s, from) {
        assert forall|j: int| from <= j < t.functions.len() && j <= u32::MAX implies (
        #[trigger] t.functions[j]).code.len() > 0 || waits(0, t, j) by {
            if j != fn_id {
                assert(t.functions[j] == s.functions[j]);
                if waits(0, s, j) {
                    let k = choose|k: int|
                        0 <= k < s.pending.len() && (#[trigger] s.pending[k]).fn_id == j;
                    assert(t.pending[k].fn_id == j);
                }
            }
        }
    }
}

proof fn lemma_decls_serve(g: Globals, s: Draft, stages: Seq<Stage>, k: nat, from: int)
    requires
        served(s, from),
        0 <= from <= s.functions.len(),
        k <= stages.len(),
        forall|name: Seq<char>| #[trigger]
            g.functions.contains_key(name) ==> g.functions[name] < s.functions.len(),
    ensures
        served(compiled_decls(g, s, stages, k), from),
        s.functions.len() <= compiled_decls(g, s, stages, k).functions.len(),
        declared_served(g, compiled_decls(g, s, stages, k), stages, k),
    decreases k,
{
    if k > 0 {
        let a = compiled_decls(g, s, stages, (k - 1) as nat);
        let t = compiled_decls(g, s, stages, k);
        lemma_decls_serve(g, s, stages, (k - 1) as nat, from);
        match stages[k - 1] {
            Stage::FnDecl(d) => {
                let a1 = started(a);
                let b = with_params(a1, d.params@, d.params@.len(), stages);
                let c = expr(g, b, d.body, true);
                lemma_params(g, a1, d.params@, d.params@.len(), stages);
                lemma_expr_keeps(g, b, d.body, true);
                lemma_keeps(g, a1, b, c);
                assert(served(a1, from)) by {
                    assert forall|j: int|
                        from <= j < a1.functions.len() && j <= u32::MAX implies (
                    #[trigger] a1.functions[j]).code.len() > 0 || waits(0, a1, j) by {
                        assert(a.functions[j] == a1.functions[j]);
                        if waits(0, a, j) {
                            let q = choose|q: int|
                                0 <= q < a.pending.len() && (#[trigger] a.pending[q]).fn_id == j;
                            assert(a1.pending[q].fn_id == j);
                        }
                    }
                }
                lemma_served(a1, c, from);
                if g.functions.contains_key(d.name@) {
                    lemma_finished_serves(c, g.functions[d.name@], from);
                }
                assert forall|i: int| 0 <= i < k && i < stages.len() implies (
                #[trigger] stages[i] matches Stage::FnDecl(e) ==> {
                    let id = g.functions[e.name@];
                    g.functions.contains_key(e.name@) && id < t.functions.len()
                        ==> t.functions[id as int].code.len() > 0
                }) by {
                    if i < k - 1 {
                        match stages[i] {
                            Stage::FnDecl(e) => {
                                let id = g.functions[e.name@];
                                if g.functions.contains_key(e.name@) {
                                    assert(a.functions[id as int].code.len() > 0);
                                    assert(a1.functions[id as int].code.len() > 0);
                                    assert(c.functions[id as int].code.len() > 0);
                                }
                            },
                            _ => {},
                        }
                    }
                }
            },
            _ => {},
        }
    }
}

proof fn lemma_drained_serves(g: Globals, s: Draft, from: int)
    requires
        served(s, from),
        0 <= from <= s.functions.len(),
    ensures
        served(drained(g, s), from),
        drained(g, s).pending.len() == 0,
        code_stays(s, drained(g, s)),
    decreases queued(s.pending),
{
    if s.pending.len() > 0 {
        let job = s.pending.last();
        let s1 = Draft { pending: s.pending.drop_last(), ..s };
        let s2 = started(s1);
        let a = with_captures(s2, job.captures, job.captures.len());
        let b = with_lambda_params(a, job.params, job.params.len());
        let c = expr(g, b, job.body, true);
        let t = next_lambda(g, s);
        lemma_captures(g, s2, job.captures, job.captures.len());
        lemma_lambda_params(g, a, job.params, job.params.len());
        lemma_keeps(g, s2, a, b);
        lemma_expr_keeps(g, b, job.body, true);
        lemma_keeps(g, s2, b, c);
        assert(coded(s2, c));
        assert(t == finished(c, job.fn_id));
        assert(code_stays(s, c) && served(t, from)) by {
            reveal(coded);
            assert forall|j: int| from <= j < t.functions.len() && j <= u32::MAX implies (
            #[trigger] t.functions[j]).code.len() > 0 || waits(0, t, j) by {
                if j != job.fn_id {
                    assert(t.functions[j] == c.functions[j]);
                    if j < s.functions.len() {
                        assert(c.functions[j] == s2.functions[j]);
                        assert(s.functions[j].code.len() > 0 || waits(0, s, j));
                        if waits(0, s, j) {
                            let k = choose|k: int|
                                0 <= k < s.pending.len() && (#[trigger] s.pending[k]).fn_id == j;
                            assert(k < s.pending.len() - 1);
                            assert(s2.pending[k] == s.pending[k]);
                            assert(c.pending[k] == s2.pending[k]);
                            assert(t.pending[k].fn_id == j);
                        }
                    } else if waits(s2.pending.len() as int, c, j) {
                        let k = choose|k: int|
                            s2.pending.len() <= k < c.pending.len() && (
                            #[trigger] c.pending[k]).fn_id == j;
                        assert(t.pending[k].fn_id == j);
                    }
                }
            }
            assert forall|j: int|
                0 <= j < s.functions.len() && (#[trigger] s.functions[j]).code.len()
                    > 0 implies c.functions[j].code.len() > 0 by {
                assert(c.functions[j] == s2.functions[j]);
            }
        }
        lemma_finished_serves(c, job.fn_id, from);
        lemma_next_lambda(g, s);
        lemma_drained_serves(g, t, from);
        assert(code_stays(s, t));
        assert forall|j: int|
            0 <= j < s.functions.len() && (#[trigger] s.functions[j]).code.len()
                > 0 implies drained(g, s).functions[j].code.len() > 0 by {
            assert(t.functions[j].code.len() > 0);
        }
    }
}

proof fn lemma_name_numbered(stages: Seq<Stage>, i: int)
    requires
        0 <= i < stages.len(),
    ensures
        stages[i] matches Stage::FnDecl(d) ==> numbered(stages).contains_key(d.name@),
    decreases stages.len(),
{
    let rest = stages.drop_last();
    if i < rest.len() {
        lemma_name_numbered(rest, i);
        assert(rest[i] == stages[i]);
    }
}

/// Law: every function of a compiled program gets its code: each declared
/// function, by the number that calls of it use, and each function that
/// compiling adds.
pub proof fn law_every_function_gets_code(stages: Seq<Stage>)
    requires
        small(draft_of(stages)),
    ensures
        forall|i: int|
            0 <= i < stages.len() ==> (#[trigger] stages[i] matches Stage::FnDecl(d) ==> {
                let id = numbered(stages)[d.name@];
                &&& numbered(stages).contains_key(d.name@)
                &&& id < declared(stages).len()
                &&& draft_of(stages).functions[id as int].code.len() > 0
            }),
        forall|i: int|
            declared(stages).len() <= i < draft_of(stages).functions.len() ==> (
            #[trigger] draft_of(stages).functions[i]).code.len() > 0,
{
    let g = globals(stages, true);
    let h = globals(stages, false);
    let s = opened(stages);
    let from = s.functions.len() as int;
    let a = compiled_decls(g, s, stages, stages.len());
    let t = draft_of(stages);
    lemma_decls(g, s, stages, stages.len());
    lemma_drained(h, a);
    lemma_numbered(stages);
    lemma_decls_serve(g, s, stages, stages.len(), from);
    lemma_drained_serves(h, a, from);
    assert forall|i: int| 0 <= i < stages.len() implies (
    #[trigger] stages[i] matches Stage::FnDecl(d) ==> {
        let id = numbered(stages)[d.name@];
        &&& numbered(stages).contains_key(d.name@)
        &&& id < declared(stages).len()
        &&& t.functions[id as int].code.len() > 0
    }) by {
        lemma_name_numbered(stages, i);
        match stages[i] {
            Stage::FnDecl(d) => {
                assert(a.functions[numbered(stages)[d.name@] as int].code.len() > 0);
            },
            _ => {},
        }
    }
}

} // verus!
