//! Listeners that receive solutions while the optimizer runs.
use vstd::prelude::*;

verus! {

#[derive(Debug, Clone, Copy, PartialEq, Eq, Structural)]
pub enum ReportType {
    /// Report contains a feasible solution reached by the exploration phase.
    ExplFeas,
    /// Report contains an infeasible solution reached by the exploration phase.
    ExplInfeas,
    /// Report contains an intermediate solution from the exploration phase that is closer to feasibility than the previous one.
    ExplImproving,
    /// Report contains a feasible solution from the comparison phase.
    CmprFeas,
    /// Report contains the final solution
    Final,
}

/// Tag of a report type in the names of exported files.
pub open spec fn spec_suffix(r: ReportType) -> Seq<char> {
    match r {
        ReportType::CmprFeas => "cmpr"@,
        ReportType::ExplInfeas => "expl_nf"@,
        ReportType::ExplFeas => "expl_f"@,
        ReportType::Final => "final"@,
        ReportType::ExplImproving => "expl_i"@,
    }
}

impl ReportType {
    /// Tag of the report type in the names of exported files.
    pub fn suffix(&self) -> (s: &'static str)
        ensures
            s@ == spec_suffix(*self),
            *self == ReportType::CmprFeas ==> s@ == "cmpr"@,
            *self == ReportType::ExplInfeas ==> s@ == "expl_nf"@,
            *self == ReportType::ExplFeas ==> s@ == "expl_f"@,
            *self == ReportType::Final ==> s@ == "final"@,
            *self == ReportType::ExplImproving ==> s@ == "expl_i"@,
    {
        match self {
            ReportType::CmprFeas => "cmpr",
            ReportType::ExplInfeas => "expl_nf",
            ReportType::ExplFeas => "expl_f",
            ReportType::Final => "final",
            ReportType::ExplImproving => "expl_i",
        }
    }
}

/// Each report type has its own tag: distinct report types are never
/// exported under the same tag.
pub proof fn lemma_suffixes_distinct(a: ReportType, b: ReportType)
    ensures
        a != b ==> spec_suffix(a) != spec_suffix(b),
{
    reveal_strlit("cmpr");
    reveal_strlit("expl_nf");
    reveal_strlit("expl_f");
    reveal_strlit("final");
    reveal_strlit("expl_i");
    if a != b {
        if spec_suffix(a).len() == spec_suffix(b).len() {
            let i: int = if (a == ReportType::ExplFeas || a == ReportType::ExplImproving) && (b
                == ReportType::ExplFeas || b == ReportType::ExplImproving) {
                5
            } else {
                0
            };
            assert(spec_suffix(a)[i] != spec_suffix(b)[i]);
        }
    }
}

/// Receives solutions during the optimization process, with the instance
/// they solve. `S` is the solution type of the problem and `I` its instance
/// type, so that strip- and bin-packing solutions share the mechanism.
pub trait SolutionListener<S, I> {
    fn report(&mut self, report: ReportType, solution: &S, instance: &I);
}

/// A listener that does nothing, for any problem type.
pub struct DummySolListener;

impl<S, I> SolutionListener<S, I> for DummySolListener {
    fn report(&mut self, _report: ReportType, _solution: &S, _instance: &I) {
    }
}

} // verus!
