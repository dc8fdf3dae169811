//! The code that tests a value against a pattern and binds its parts.

use vstd::prelude::*;

use crate::ast::{CLit, Pattern, PatternField};
use crate::compiler::draft::{
    emitted, emitted_all, field_read, interned, number, stored, Draft, FnCompiler,
};
use crate::compiler::pool;
use crate::compiler::pool::Constant;
use crate::op::Op;

verus! {

/// A constant entered anew and pushed.
pub open spec fn pushed_fresh(s: Draft, c: Constant) -> Draft {
    emitted(
        Draft { pool: pool::with_fresh_const(s.pool, c), ..s },
        Op::PushConst(s.pool.consts.len() as u32),
    )
}

/// A constant entered once and pushed.
pub open spec fn pushed(s: Draft, c: Constant) -> Draft {
    emitted(interned(s, c), Op::PushConst(number(s, c)))
}

/// A literal on the stack. Byte literals stand for the empty byte string.
pub open spec fn literal(s: Draft, l: CLit) -> Draft {
    match l {
        CLit::Int { value } => pushed(s, Constant::Int(value)),
        CLit::Bool { value } => pushed(s, Constant::Bool(value)),
        CLit::Float { bits, .. } => pushed_fresh(s, Constant::Float(bits)),
        CLit::Str { value } => pushed(s, Constant::Str(value@)),
        CLit::Bytes { .. } => pushed_fresh(s, Constant::Bytes(Seq::empty())),
        CLit::Unit => pushed_fresh(s, Constant::Unit),
    }
}

/// The op that compares with a literal.
pub open spec fn literal_test(l: CLit) -> Op {
    match l {
        CLit::Str { .. } => Op::StrEq,
        CLit::Bytes { .. } => Op::BytesEq,
        CLit::Int { .. } => Op::IntEq,
        CLit::Float { .. } => Op::FloatEq,
        _ => Op::NumEq,
    }
}

/// The op that reads a part of a variant or of a tuple.
pub open spec fn part(of_variant: bool, k: nat) -> Op {
    if of_variant {
        Op::GetVariantArg(k as u16)
    } else {
        Op::GetElem(k as u16)
    }
}

/// The test of the value on the stack, which it takes off. The second part of
/// the result lists the jumps that are taken on failure, and are not aimed
/// yet; on failure, too, the value is gone.
pub open spec fn tested(s: Draft, fails: Seq<nat>, p: Pattern) -> (Draft, Seq<nat>)
    decreases p, 0nat,
{
    match p {
        Pattern::PWild => (emitted(s, Op::Pop), fails),
        Pattern::PVar { name } => (stored(s, name@), fails),
        Pattern::PLiteral { value } => {
            let t = emitted(literal(s, value), literal_test(value));
            (emitted(t, Op::JumpIfNot(0)), fails.push(t.code.len()))
        },
        Pattern::PConstructor { name, args } => {
            let c = Constant::VariantName(name@);
            let t = emitted_all(
                interned(s, c),
                seq![Op::Dup, Op::TestVariant(number(s, c)), Op::JumpIf(2), Op::Pop, Op::Jump(0)],
            );
            let fails = fails.push((s.code.len() + 4) as nat);
            if args@.len() == 0 {
                (emitted(t, Op::Pop), fails)
            } else if args@.len() == 1 {
                tested(emitted(t, Op::GetVariantArg(0)), fails, args@[0])
            } else {
                tested_parts(
                    stored(t, "__variant"@),
                    fails,
                    args@,
                    args@.len(),
                    t.next_local,
                    true,
                )
            }
        },
        Pattern::PRecord { fields } => tested_fields(
            stored(s, "__record"@),
            fails,
            fields@,
            fields@.len(),
            s.next_local,
        ),
        Pattern::PTuple { items } => tested_parts(
            stored(s, "__tuple"@),
            fails,
            items@,
            items@.len(),
            s.next_local,
            false,
        ),
    }
}

/// The tests of the first `k` parts of the value in a local.
pub open spec fn tested_parts(
    s: Draft,
    fails: Seq<nat>,
    ps: Seq<Pattern>,
    k: nat,
    slot: u16,
    of_variant: bool,
) -> (Draft, Seq<nat>)
    decreases ps, k,
{
    if k == 0 || k > ps.len() {
        (s, fails)
    } else {
        let (a, f) = tested_parts(s, fails, ps, (k - 1) as nat, slot, of_variant);
        tested(
            emitted(emitted(a, Op::LoadLocal(slot)), part(of_variant, (k - 1) as nat)),
            f,
            ps[k - 1],
        )
    }
}

/// The tests of the first `k` fields of the record in a local.
pub open spec fn tested_fields(
    s: Draft,
    fails: Seq<nat>,
    fs: Seq<PatternField>,
    k: nat,
    slot: u16,
) -> (Draft, Seq<nat>)
    decreases fs, k,
{
    if k == 0 || k > fs.len() {
        (s, fails)
    } else {
        let (a, f) = tested_fields(s, fails, fs, (k - 1) as nat, slot);
        tested(
            field_read(emitted(a, Op::LoadLocal(slot)), fs[k - 1].name@),
            f,
            fs[k - 1].pattern,
        )
    }
}

pub open spec fn places(v: Seq<usize>) -> Seq<nat> {
    Seq::new(v.len(), |i: int| v[i] as nat)
}

fn note(fails: &mut Vec<usize>, at: usize)
    ensures
        places(final(fails)@) == places(old(fails)@).push(at as nat),
{
    let ghost f = fails@;
    fails.push(at);
    assert(places(fails@) =~= places(f).push(at as nat));
}

/// A jump aimed at a target.
pub open spec fn aimed(op: Op, at: int, target: int) -> Op {
    match op {
        Op::JumpIfNot(_) => Op::JumpIfNot((target - (at + 1)) as i32),
        Op::Jump(_) => Op::Jump((target - (at + 1)) as i32),
        _ => op,
    }
}

/// The code with some of its jumps aimed at a target.
pub open spec fn patched(code: Seq<Op>, js: Seq<nat>, target: int) -> Seq<Op> {
    Seq::new(
        code.len(),
        |i: int|
            if js.contains(i as nat) {
                aimed(code[i], i, target)
            } else {
                code[i]
            },
    )
}

impl<'a> FnCompiler<'a> {
    /// Pushes a literal.
    pub fn compile_lit(&mut self, l: &CLit)
        requires
            old(self).wf(),
        ensures
            final(self).wf(),
            final(self)@ == literal(old(self)@, *l),
    {
        let i: u32 = match l {
            CLit::Int { value } => self.pool.integer(*value),
            CLit::Bool { value } => self.pool.truth(*value),
            CLit::Float { bits, .. } => self.pool.float(*bits),
            CLit::Str { value } => self.pool.text(value.as_str()),
            CLit::Bytes { .. } => self.pool.bytes(),
            CLit::Unit => self.pool.unit(),
        };
        self.emit(Op::PushConst(i));
    }

    /// Tests the value on the stack. The places of the jumps that are taken on
    /// failure are added to `fails`.
    pub fn compile_pattern_test(&mut self, p: &Pattern, fails: &mut Vec<usize>)
        requires
            old(self).wf(),
        ensures
            final(self).wf(),
            (final(self)@, places(final(fails)@)) == tested(old(self)@, places(old(fails)@), *p),
        decreases p, 0nat,
    {
        match p {
            Pattern::PWild => {
                self.emit(Op::Pop);
            },
            Pattern::PVar { name } => {
                self.store_local(name.as_str());
            },
            Pattern::PLiteral { value } => {
                self.compile_lit(value);
                let op = match value {
                    CLit::Str { .. } => Op::StrEq,
                    CLit::Bytes { .. } => Op::BytesEq,
                    CLit::Int { .. } => Op::IntEq,
                    CLit::Float { .. } => Op::FloatEq,
                    _ => Op::NumEq,
                };
                self.emit(op);
                note(fails, self.code.len());
                self.emit(Op::JumpIfNot(0));
            },
            Pattern::PConstructor { name, args } => {
                let name_idx: u32 = self.variant(name.as_str());
                let ghost s1 = self@;
                let mut code: Vec<Op> = Vec::new();
                code.push(Op::Dup);
                code.push(Op::TestVariant(name_idx));
                code.push(Op::JumpIf(2));
                code.push(Op::Pop);
                code.push(Op::Jump(0));
                self.emit_all(code);
                assert(self@.code.len() == s1.code.len() + 5);
                note(fails, self.code.len() - 1);
                let ghost t = emitted_all(
                    s1,
                    seq![
                        Op::Dup,
                        Op::TestVariant(name_idx),
                        Op::JumpIf(2),
                        Op::Pop,
                        Op::Jump(0),
                    ],
                );
                assert(self@ == t);
                if args.len() == 0 {
                    self.emit(Op::Pop);
                } else if args.len() == 1 {
                    self.emit(Op::GetVariantArg(0));
                    self.compile_pattern_test(&args[0], fails);
                } else {
                    let slot: u16 = self.store_local("__variant");
                    self.compile_parts(args, fails, slot, true);
                }
            },
            Pattern::PRecord { fields } => {
                let slot: u16 = self.store_local("__record");
                self.compile_fields(fields, fails, slot);
            },
            Pattern::PTuple { items } => {
                let slot: u16 = self.store_local("__tuple");
                self.compile_parts(items, fails, slot, false);
            },
        }
    }

    fn compile_parts(&mut self, ps: &Vec<Pattern>, fails: &mut Vec<usize>, slot: u16,
        of_variant: bool)
        requires
            old(self).wf(),
        ensures
            final(self).wf(),
            (final(self)@, places(final(fails)@)) == tested_parts(
                old(self)@,
                places(old(fails)@),
                ps@,
                ps@.len(),
                slot,
                of_variant,
            ),
        decreases ps, 0nat,
    {
        let ghost s0 = self@;
        let ghost f0 = places(fails@);
        let mut k: usize = 0;
        while k < ps.len()
            invariant
                self.wf(),
                k <= ps.len(),
                (self@, places(fails@)) == tested_parts(s0, f0, ps@, k as nat, slot, of_variant),
            decreases ps.len() - k,
        {
            self.emit(Op::LoadLocal(slot));
            if of_variant {
                self.emit(Op::GetVariantArg(k as u16));
            } else {
                self.emit(Op::GetElem(k as u16));
            }
            self.compile_pattern_test(&ps[k], fails);
            k = k + 1;
        }
    }

    fn compile_fields(&mut self, fs: &Vec<PatternField>, fails: &mut Vec<usize>, slot: u16)
        requires
            old(self).wf(),
        ensures
            final(self).wf(),
            (final(self)@, places(final(fails)@)) == tested_fields(
                old(self)@,
                places(old(fails)@),
                fs@,
                fs@.len(),
                slot,
            ),
        decreases fs, 0nat,
    {
        let ghost s0 = self@;
        let ghost f0 = places(fails@);
        let mut k: usize = 0;
        while k < fs.len()
            invariant
                self.wf(),
                k <= fs.len(),
                (self@, places(fails@)) == tested_fields(s0, f0, fs@, k as nat, slot),
            decreases fs.len() - k,
        {
            let f = &fs[k];
            assert(decreases_to!(fs => fs@[k as int]));
            self.emit(Op::LoadLocal(slot));
            self.read_field(f.name.as_str());
            self.compile_pattern_test(&f.pattern, fails);
            k = k + 1;
        }
    }

    /// Aims jumps at the end of the code.
    pub fn patch(&mut self, js: &Vec<usize>)
        requires
            old(self).wf(),
        ensures
            final(self).wf(),
            final(self)@ == (Draft {
                code: patched(old(self)@.code, places(js@), old(self)@.code.len() as int),
                ..old(self)@
            }),
    {
        let target: usize = self.code.len();
        let ghost s0 = self@;
        let ghost goal = patched(s0.code, places(js@), target as int);
        let mut k: usize = 0;
        while k < js.len()
            invariant
                self.wf(),
                k <= js.len(),
                target == s0.code.len(),
                self@ == (Draft { code: self@.code, ..s0 }),
                self@.code.len() == s0.code.len(),
                goal == patched(s0.code, places(js@), target as int),
                forall|i: int|
                    0 <= i < s0.code.len() ==> #[trigger] self@.code[i] == (if places(
                        js@,
                    ).take(k as int).contains(i as nat) {
                        aimed(s0.code[i], i, target as int)
                    } else {
                        s0.code[i]
                    }),
            decreases js.len() - k,
        {
            let j: usize = js[k];
            let ghost before = places(js@).take(k as int);
            let ghost after = places(js@).take(k + 1);
            let ghost code0 = self@.code;
            assert(after =~= before.push(j as nat));
            if j < self.code.len() {
                let off = (target as i128 - (j as i128 + 1)) as i32;
                match self.code[j] {
                    Op::JumpIfNot(_) => {
                        self.code.set(j, Op::JumpIfNot(off));
                    },
                    Op::Jump(_) => {
                        self.code.set(j, Op::Jump(off));
                    },
                    _ => {},
                }
            }
            assert forall|i: int| 0 <= i < s0.code.len() implies #[trigger] self@.code[i] == (
            if after.contains(i as nat) {
                aimed(s0.code[i], i, target as int)
            } else {
                s0.code[i]
            }) by {
                assert(code0[i] == (if before.contains(i as nat) {
                    aimed(s0.code[i], i, target as int)
                } else {
                    s0.code[i]
                }));
                if before.contains(i as nat) {
                    let q = choose|q: int| 0 <= q < before.len() && before[q] == i as nat;
                    assert(after[q] == i as nat);
                }
                assert(after[k as int] == j as nat);
                if after.contains(i as nat) && i != j {
                    let q = choose|q: int| 0 <= q < after.len() && after[q] == i as nat;
                    assert(before[q] == i as nat);
                }
            }
            k = k + 1;
        }
        assert(places(js@).take(k as int) =~= places(js@));
        assert(self@.code =~= goal);
    }
}

} // verus!
