//! Arena eligibility: which aggregates may live in the arena of the active
//! request.
//!
//! This is the escape analysis with one rule changed. Returning a value is no
//! escape here, since the caller runs inside the same request.

use vstd::prelude::*;

use crate::escape;
use crate::escape::{analyze_function_with_policy, EscapeReport, EscapeSite, Policy, SiteKind};
use crate::program::Function;
use crate::site_index::SiteIndex;

verus! {

/// What the analysis found in one function.
#[derive(Debug, Clone, PartialEq, Eq)]
pub struct ArenaReport {
    pub fn_name: String,
    pub sites: Vec<ArenaSite>,
}

#[derive(Debug, Clone, Copy, PartialEq, Eq, Hash, Structural)]
pub struct ArenaSite {
    pub pc: u32,
    pub kind: SiteKind,
    pub shape_idx: u32,
    pub field_count: u16,
    /// The value never leaves the request on any reachable path.
    pub arena_eligible: bool,
}

/// A site may live in the arena if and only if it does not escape the request.
pub open spec fn arena_site(s: EscapeSite) -> ArenaSite {
    ArenaSite {
        pc: s.pc,
        kind: s.kind,
        shape_idx: s.shape_idx,
        field_count: s.field_count,
        arena_eligible: !s.escapes,
    }
}

pub open spec fn arena_sites(sites: Seq<EscapeSite>) -> Seq<ArenaSite> {
    Seq::new(sites.len(), |i: int| arena_site(sites[i]))
}

/// The report states a solution of the escape analysis for the request scope.
pub open spec fn reports(f: Function, r: ArenaReport) -> bool {
    &&& r.fn_name@ == f.name@
    &&& exists|er: EscapeReport| #[trigger]
        escape::reports(f, Policy::RequestScope, er) && r.sites@ == arena_sites(er.sites@)
}

/// Analyzes one function.
pub fn analyze_function(func: &Function) -> (r: ArenaReport)
    ensures
        reports(*func, r),
{
    let er = analyze_function_with_policy(func, Policy::RequestScope);
    let mut sites: Vec<ArenaSite> = Vec::new();
    let mut i: usize = 0;
    while i < er.sites.len()
        invariant
            i <= er.sites.len(),
            sites@ == arena_sites(er.sites@.take(i as int)),
        decreases er.sites.len() - i,
    {
        let s = er.sites[i];
        sites.push(
            ArenaSite {
                pc: s.pc,
                kind: s.kind,
                shape_idx: s.shape_idx,
                field_count: s.field_count,
                arena_eligible: !s.escapes,
            },
        );
        i = i + 1;
        assert(sites@ =~= arena_sites(er.sites@.take(i as int)));
    }
    assert(er.sites@.take(i as int) =~= er.sites@);
    ArenaReport { fn_name: er.fn_name.clone(), sites }
}

/// One report for each function that allocates an aggregate, in order.
pub open spec fn program_reports(fs: Seq<Function>, rs: Seq<ArenaReport>) -> bool
    decreases fs.len(),
{
    if fs.len() == 0 {
        rs.len() == 0
    } else if escape::no_sites(fs.last().code@) {
        program_reports(fs.drop_last(), rs)
    } else {
        &&& rs.len() > 0
        &&& reports(fs.last(), rs.last())
        &&& program_reports(fs.drop_last(), rs.drop_last())
    }
}

/// Analyzes every function. Functions without allocation sites are left out.
pub fn analyze_program(functions: &[Function]) -> (rs: Vec<ArenaReport>)
    ensures
        program_reports(functions@, rs@),
{
    let mut rs: Vec<ArenaReport> = Vec::new();
    let mut i: usize = 0;
    while i < functions.len()
        invariant
            i <= functions.len(),
            program_reports(functions@.take(i as int), rs@),
        decreases functions.len() - i,
    {
        let ghost rs0 = rs@;
        let r = analyze_function(&functions[i]);
        proof {
            assert(functions@.take(i + 1).drop_last() =~= functions@.take(i as int));
            let er = choose|er: EscapeReport| #[trigger]
                escape::reports(functions@[i as int], Policy::RequestScope, er) && r.sites@
                    == arena_sites(er.sites@);
            escape::lemma_report_empty(functions@[i as int], Policy::RequestScope, er);
        }
        if r.sites.len() > 0 {
            rs.push(r);
            assert(rs@.drop_last() =~= rs0);
        }
        i = i + 1;
    }
    assert(functions@.take(i as int) =~= functions@);
    rs
}

/// The flags of one report, entered into an index.
pub open spec fn index_sites(
    idx: Map<(Seq<char>, u32), bool>,
    fn_name: Seq<char>,
    sites: Seq<ArenaSite>,
) -> Map<(Seq<char>, u32), bool>
    decreases sites.len(),
{
    if sites.len() == 0 {
        idx
    } else {
        index_sites(idx, fn_name, sites.drop_last()).insert(
            (fn_name, sites.last().pc),
            sites.last().arena_eligible,
        )
    }
}

/// The flags of all reports.
pub open spec fn index_of(rs: Seq<ArenaReport>) -> Map<(Seq<char>, u32), bool>
    decreases rs.len(),
{
    if rs.len() == 0 {
        Map::empty()
    } else {
        index_sites(index_of(rs.drop_last()), rs.last().fn_name@, rs.last().sites@)
    }
}

/// The result of [`analyze_program`] as an index by function name and pc. A
/// name that occurs twice has the flags of its last function.
pub fn build_arena_index(functions: &[Function]) -> (idx: SiteIndex)
    ensures
        exists|rs: Seq<ArenaReport>| #[trigger]
            program_reports(functions@, rs) && idx@ == index_of(rs),
{
    let reports = analyze_program(functions);
    let mut idx = SiteIndex::new();
    let mut i: usize = 0;
    while i < reports.len()
        invariant
            i <= reports.len(),
            idx@ == index_of(reports@.take(i as int)),
        decreases reports.len() - i,
    {
        let report = &reports[i];
        let ghost idx0 = idx@;
        let mut k: usize = 0;
        while k < report.sites.len()
            invariant
                k <= report.sites.len(),
                idx@ == index_sites(idx0, report.fn_name@, report.sites@.take(k as int)),
            decreases report.sites.len() - k,
        {
            idx.insert(report.fn_name.clone(), report.sites[k].pc, report.sites[k].arena_eligible);
            assert(report.sites@.take(k + 1).drop_last() =~= report.sites@.take(k as int));
            k = k + 1;
        }
        assert(report.sites@.take(k as int) =~= report.sites@);
        assert(reports@.take(i + 1).drop_last() =~= reports@.take(i as int));
        i = i + 1;
    }
    assert(reports@.take(i as int) =~= reports@);
    idx
}

/// Law: for every function, the escape report and the arena report list the
/// same sites in the same order; a site that does not escape the frame is
/// eligible for the arena, and in a body without a return every site is either
/// eligible or escapes.
pub proof fn law_frame_local_is_eligible(f: Function, e: EscapeReport, a: ArenaReport)
    requires
        escape::reports(f, Policy::Frame, e),
        reports(f, a),
    ensures
        e.sites@.len() == a.sites@.len(),
        forall|i: int|
            0 <= i < e.sites@.len() ==> {
                let x = #[trigger] e.sites@[i];
                let y = a.sites@[i];
                &&& x.pc == y.pc
                &&& x.kind == y.kind
                &&& x.shape_idx == y.shape_idx
                &&& x.field_count == y.field_count
                &&& !x.escapes ==> y.arena_eligible
                &&& escape::never_returns(f.code@) ==> y.arena_eligible == !x.escapes
            },
{
    let er = choose|er: EscapeReport| #[trigger]
        escape::reports(f, Policy::RequestScope, er) && a.sites@ == arena_sites(er.sites@);
    escape::law_policies_agree(f, e, er);
}

} // verus!
