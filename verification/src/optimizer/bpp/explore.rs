//! Bin-removal exploration for bin packing.
//!
//! Each attempt picks the least-loaded open bin that has not failed since the
//! last success, frees its items, re-injects them into the remaining bins
//! (largest first, each into the bin with the most free area) and lets the
//! separator resolve the overlaps. A result with fewer bins and no overlap is
//! kept; otherwise the attempt is rolled back and the bin is blacklisted until
//! the next success.
//!
//! `BPExploration` makes every decision of that loop; the caller runs the
//! geometry (injection, separation, snapshots) and reports back.
use vstd::prelude::*;
use std::time::Duration;
use crate::util::rank::{
    first_min_eligible, is_first_min_eligible, is_last_max, is_stable_ascending,
    itertools_sorted_by_key, last_max, ids_index_keys, vec_contains,
};

verus! {

broadcast use vstd::seq_lib::group_seq_properties;

#[derive(Debug, Clone, Copy)]
pub struct BPExplorationConfig {
    /// Hard cap on the number of bin-removal attempts.
    pub max_bin_removal_attempts: usize,
    /// Wall-clock budget for the whole exploration phase.
    pub time_limit: Duration,
}

/// Why exploration stopped.
#[derive(Debug, Clone, Copy, PartialEq, Eq, Structural)]
pub enum ExplorationEnd {
    /// The terminator asked to stop.
    Terminated,
    /// Only one bin is open; it cannot be removed.
    SingleBin,
    /// Every open bin failed to be removed since the last success.
    AllBlacklisted,
    /// The configured number of attempts was used up.
    AttemptsExhausted,
}

/// The next thing the caller does during exploration.
#[derive(Debug, Clone, Copy, PartialEq, Eq, Structural)]
pub enum ExplorationStep {
    /// Snapshot the separator, then free the items of this layout, close it
    /// and re-inject them; report whether every item found a bin.
    RemoveLayout { layout: u64 },
    /// Run the separator; report the bin count and feasibility of its result.
    Separate,
    /// Keep the separator's result as a new feasible solution and report it.
    Accept,
    /// Restore the snapshot taken before the attempt.
    RollBack,
    /// Stop exploring.
    Finish { reason: ExplorationEnd },
}

#[derive(Debug, Clone, Copy, PartialEq, Eq, Structural)]
pub enum ExplorationPhase {
    /// Between attempts.
    Idle,
    /// A layout was removed; waiting for the re-injection result.
    Removing,
    /// Separation was asked for; waiting for its result.
    Separating,
    /// Exploration has stopped.
    Finished,
}

/// Whether each layout may be chosen: it is not blacklisted.
pub open spec fn not_blacklisted(layouts: Seq<u64>, blacklist: Seq<u64>) -> Seq<bool> {
    layouts.map_values(|k: u64| !blacklist.contains(k))
}

/// `layout` is the first of the least dense layouts that are not blacklisted.
pub open spec fn is_exploration_target(
    layout: u64,
    layouts: Seq<u64>,
    density_keys: Seq<u64>,
    blacklist: Seq<u64>,
) -> bool {
    exists|i: int|
        #![trigger layouts[i]]
        layouts[i] == layout && is_first_min_eligible(
            i,
            density_keys,
            not_blacklisted(layouts, blacklist),
        )
}

/// The layout to remove next: the first of the least dense layouts that are
/// not blacklisted (density as order keys, layouts in the problem's order).
pub fn exploration_target(layouts: &Vec<u64>, density_keys: &Vec<u64>, blacklist: &Vec<u64>) -> (r:
    Option<u64>)
    requires
        layouts.len() == density_keys.len(),
    ensures
        r is None <==> forall|i: int| 0 <= i < layouts.len() ==> blacklist@.contains(
            #[trigger] layouts@[i],
        ),
        r matches Some(k) ==> is_exploration_target(k, layouts@, density_keys@, blacklist@),
        r matches Some(k) ==> exists|i: int|
            #![trigger layouts@[i]]
            {
                &&& 0 <= i < layouts.len()
                &&& layouts@[i] == k
                &&& !blacklist@.contains(k)
                &&& forall|j: int|
                    0 <= j < layouts.len() && !blacklist@.contains(#[trigger] layouts@[j])
                        ==> density_keys@[i] <= density_keys@[j]
                &&& forall|j: int|
                    0 <= j < i && !blacklist@.contains(#[trigger] layouts@[j]) ==> density_keys@[i]
                        < density_keys@[j]
            },
{
    let mut eligible: Vec<bool> = Vec::new();
    let mut i: usize = 0;
    while i < layouts.len()
        invariant
            i <= layouts.len(),
            eligible@ == not_blacklisted(layouts@.take(i as int), blacklist@),
        decreases layouts.len() - i,
    {
        let b = vec_contains(blacklist, layouts[i]);
        eligible.push(!b);
        i = i + 1;
        assert(eligible@ =~= not_blacklisted(layouts@.take(i as int), blacklist@));
    }
    assert(layouts@.take(layouts.len() as int) =~= layouts@);
    match first_min_eligible(density_keys, &eligible) {
        None => {
            assert forall|i: int| 0 <= i < layouts.len() implies blacklist@.contains(
                #[trigger] layouts@[i],
            ) by {
                assert(!eligible@[i]);
            }
            None
        },
        Some(i) => {
            assert(layouts@[i as int] == layouts[i as int]);
            Some(layouts[i])
        },
    }
}

/// The order in which the items of a removed layout are re-injected: largest
/// first. `neg_area_keys[id]` is the order key of the negated area of item
/// type `id`; the items are sorted stably by it, ascending.
pub fn reinjection_order(freed: Vec<usize>, neg_area_keys: &Vec<u64>) -> (r: Vec<usize>)
    requires
        ids_index_keys(freed@, neg_area_keys@),
    ensures
        is_stable_ascending(r@, freed@, neg_area_keys@),
{
    itertools_sorted_by_key(freed, neg_area_keys)
}

/// The open layout that receives a re-injected item: the last of those with
/// the most free area (as order keys); `None` when no layout is open, in which
/// case the injection fails.
pub fn injection_target(free_keys: &Vec<u64>) -> (r: Option<usize>)
    ensures
        r is None <==> free_keys.len() == 0,
        r matches Some(i) ==> is_last_max(i as int, free_keys@),
        r matches Some(i) ==> {
            &&& (i as int) < free_keys.len()
            &&& forall|j: int| 0 <= j < free_keys.len() ==> #[trigger] free_keys@[j] <= free_keys@[i as int]
            &&& forall|j: int| i < j < free_keys.len() ==> #[trigger] free_keys@[j] < free_keys@[i as int]
        },
{
    last_max(free_keys)
}

/// The bin-removal exploration loop.
pub struct BPExploration {
    max_attempts: usize,
    attempt: usize,
    blacklist: Vec<u64>,
    target: u64,
    pre_n_bins: usize,
    current_bins: usize,
    phase: ExplorationPhase,
    feasible_bins: Ghost<Seq<nat>>,
}

impl BPExploration {
    /// Attempts made so far.
    pub closed spec fn attempt(&self) -> nat {
        self.attempt as nat
    }

    pub closed spec fn max_attempts(&self) -> nat {
        self.max_attempts as nat
    }

    /// Layouts that failed to be removed since the last success.
    pub closed spec fn blacklist(&self) -> Seq<u64> {
        self.blacklist@
    }

    /// Layout of the current attempt.
    pub closed spec fn target(&self) -> u64 {
        self.target
    }

    /// Number of open bins when the current attempt began.
    pub closed spec fn pre_n_bins(&self) -> nat {
        self.pre_n_bins as nat
    }

    /// Number of open bins of the problem between attempts.
    pub closed spec fn current_bins(&self) -> nat {
        self.current_bins as nat
    }

    pub closed spec fn phase(&self) -> ExplorationPhase {
        self.phase
    }

    /// Bin counts of the feasible solutions kept so far, in order.
    pub closed spec fn feasible_bins(&self) -> Seq<nat> {
        self.feasible_bins@
    }

    pub closed spec fn wf(&self) -> bool {
        &&& self.attempt <= self.max_attempts
        &&& self.feasible_bins@.len() >= 1
        &&& self.feasible_bins@.len() <= self.attempt + 1
        &&& self.feasible_bins@.last() == self.current_bins as nat
        &&& forall|i: int, j: int|
            0 <= i < j < self.feasible_bins@.len() ==> #[trigger] self.feasible_bins@[j]
                < #[trigger] self.feasible_bins@[i]
        &&& forall|i: int| 0 <= i < self.feasible_bins@.len() - 1 ==> #[trigger] self.feasible_bins@[i] >= 2
        &&& self.phase != ExplorationPhase::Idle && self.phase != ExplorationPhase::Finished
            ==> self.pre_n_bins == self.current_bins && self.attempt < self.max_attempts
            && self.pre_n_bins >= 2
    }

    /// Starts exploration from a feasible problem with `initial_n_bins` open
    /// bins; that solution is the first feasible one.
    pub fn new(config: &BPExplorationConfig, initial_n_bins: usize) -> (e: Self)
        ensures
            e.wf(),
            e.attempt() == 0,
            e.max_attempts() == config.max_bin_removal_attempts,
            e.blacklist() == Seq::<u64>::empty(),
            e.current_bins() == initial_n_bins,
            e.feasible_bins() == seq![initial_n_bins as nat],
            e.phase() == ExplorationPhase::Idle,
    {
        let ghost first: Seq<nat> = seq![initial_n_bins as nat];
        BPExploration {
            max_attempts: config.max_bin_removal_attempts,
            attempt: 0,
            blacklist: Vec::new(),
            target: 0,
            pre_n_bins: initial_n_bins,
            current_bins: initial_n_bins,
            phase: ExplorationPhase::Idle,
            feasible_bins: Ghost(first),
        }
    }

    /// Number of open bins of the problem between attempts, as the
    /// exploration tracks it.
    pub fn n_bins(&self) -> (n: usize)
        ensures
            n == self.current_bins(),
            self.wf() ==> n == self.feasible_bins().last(),
    {
        self.current_bins
    }

    /// Begins an attempt, given whether termination was asked for and the
    /// open layouts of the problem with their densities (as order keys).
    /// Stops when attempts are used up, when asked to, when a single bin is
    /// open or when every bin is blacklisted; otherwise asks to remove the
    /// least dense layout that is not blacklisted.
    pub fn begin_attempt(&mut self, killed: bool, layouts: &Vec<u64>, density_keys: &Vec<u64>) -> (step:
        ExplorationStep)
        requires
            old(self).wf(),
            old(self).phase() == ExplorationPhase::Idle,
            layouts.len() == density_keys.len(),
            layouts.len() == old(self).current_bins(),
        ensures
            final(self).wf(),
            final(self).attempt() == old(self).attempt(),
            final(self).max_attempts() == old(self).max_attempts(),
            final(self).blacklist() == old(self).blacklist(),
            final(self).current_bins() == old(self).current_bins(),
            final(self).feasible_bins() == old(self).feasible_bins(),
            old(self).attempt() >= old(self).max_attempts() ==> step == (ExplorationStep::Finish {
                reason: ExplorationEnd::AttemptsExhausted,
            }),
            old(self).attempt() < old(self).max_attempts() && killed ==> step == (
            ExplorationStep::Finish { reason: ExplorationEnd::Terminated }),
            old(self).attempt() < old(self).max_attempts() && !killed && layouts.len() <= 1 ==> step
                == (ExplorationStep::Finish { reason: ExplorationEnd::SingleBin }),
            old(self).attempt() < old(self).max_attempts() && !killed && layouts.len() > 1 && (forall|
                i: int,
            | 0 <= i < layouts.len() ==> old(self).blacklist().contains(#[trigger] layouts@[i]))
                ==> step == (ExplorationStep::Finish { reason: ExplorationEnd::AllBlacklisted }),
            step is Finish ==> final(self).phase() == ExplorationPhase::Finished,
            step matches ExplorationStep::RemoveLayout { layout } ==> {
                &&& is_exploration_target(layout, layouts@, density_keys@, old(self).blacklist())
                &&& !old(self).blacklist().contains(layout)
                &&& final(self).target() == layout
                &&& final(self).pre_n_bins() == layouts.len()
                &&& final(self).phase() == ExplorationPhase::Removing
            },
            (old(self).attempt() < old(self).max_attempts() && !killed && layouts.len() > 1 && exists|
                i: int,
            | 0 <= i < layouts.len() && !old(self).blacklist().contains(#[trigger] layouts@[i]))
                ==> step is RemoveLayout,
            step is Finish || step is RemoveLayout,
    {
        if self.attempt >= self.max_attempts {
            self.phase = ExplorationPhase::Finished;
            return ExplorationStep::Finish { reason: ExplorationEnd::AttemptsExhausted };
        }
        if killed {
            self.phase = ExplorationPhase::Finished;
            return ExplorationStep::Finish { reason: ExplorationEnd::Terminated };
        }
        if layouts.len() <= 1 {
            self.phase = ExplorationPhase::Finished;
            return ExplorationStep::Finish { reason: ExplorationEnd::SingleBin };
        }
        match exploration_target(layouts, density_keys, &self.blacklist) {
            None => {
                self.phase = ExplorationPhase::Finished;
                ExplorationStep::Finish { reason: ExplorationEnd::AllBlacklisted }
            },
            Some(k) => {
                proof {
                    let i = choose|i: int|
                        #![trigger layouts@[i]]
                        layouts@[i] == k && is_first_min_eligible(
                            i,
                            density_keys@,
                            not_blacklisted(layouts@, self.blacklist@),
                        );
                    assert(not_blacklisted(layouts@, self.blacklist@)[i]);
                }
                self.target = k;
                self.pre_n_bins = layouts.len();
                self.phase = ExplorationPhase::Removing;
                ExplorationStep::RemoveLayout { layout: k }
            },
        }
    }

    /// Takes the result of re-injection: separation follows when every item
    /// found a bin; otherwise the attempt is rolled back and its layout
    /// blacklisted.
    pub fn removal_done(&mut self, injected_all: bool) -> (step: ExplorationStep)
        requires
            old(self).wf(),
            old(self).phase() == ExplorationPhase::Removing,
        ensures
            final(self).wf(),
            final(self).max_attempts() == old(self).max_attempts(),
            final(self).current_bins() == old(self).current_bins(),
            final(self).feasible_bins() == old(self).feasible_bins(),
            final(self).target() == old(self).target(),
            final(self).pre_n_bins() == old(self).pre_n_bins(),
            injected_all ==> step == ExplorationStep::Separate && final(self).phase()
                == ExplorationPhase::Separating && final(self).attempt() == old(self).attempt()
                && final(self).blacklist() == old(self).blacklist(),
            !injected_all ==> step == ExplorationStep::RollBack && final(self).phase()
                == ExplorationPhase::Idle && final(self).attempt() == old(self).attempt() + 1
                && final(self).blacklist() == old(self).blacklist().push(old(self).target()),
    {
        if injected_all {
            self.phase = ExplorationPhase::Separating;
            ExplorationStep::Separate
        } else {
            self.fail_attempt();
            ExplorationStep::RollBack
        }
    }

    /// Takes the bin count of the separator's result and whether it is free
    /// of overlap. The result is kept when it has fewer bins than before the
    /// attempt and no overlap; the blacklist is then cleared. Otherwise the
    /// attempt is rolled back and its layout blacklisted.
    pub fn separation_done(&mut self, n_bins: usize, feasible: bool) -> (step: ExplorationStep)
        requires
            old(self).wf(),
            old(self).phase() == ExplorationPhase::Separating,
        ensures
            final(self).wf(),
            final(self).max_attempts() == old(self).max_attempts(),
            final(self).phase() == ExplorationPhase::Idle,
            final(self).attempt() == old(self).attempt() + 1,
            (n_bins < old(self).pre_n_bins() && feasible) ==> {
                &&& step == ExplorationStep::Accept
                &&& final(self).blacklist() == Seq::<u64>::empty()
                &&& final(self).current_bins() == n_bins
                &&& final(self).feasible_bins() == old(self).feasible_bins().push(n_bins as nat)
            },
            !(n_bins < old(self).pre_n_bins() && feasible) ==> {
                &&& step == ExplorationStep::RollBack
                &&& final(self).blacklist() == old(self).blacklist().push(old(self).target())
                &&& final(self).current_bins() == old(self).current_bins()
                &&& final(self).feasible_bins() == old(self).feasible_bins()
            },
    {
        if n_bins < self.pre_n_bins && feasible {
            self.attempt = self.attempt + 1;
            self.blacklist = Vec::new();
            self.current_bins = n_bins;
            let ghost kept = self.feasible_bins@.push(n_bins as nat);
            self.feasible_bins = Ghost(kept);
            self.phase = ExplorationPhase::Idle;
            ExplorationStep::Accept
        } else {
            self.fail_attempt();
            ExplorationStep::RollBack
        }
    }

    fn fail_attempt(&mut self)
        requires
            old(self).wf(),
            old(self).phase() == ExplorationPhase::Removing || old(self).phase()
                == ExplorationPhase::Separating,
        ensures
            final(self).wf(),
            final(self).max_attempts() == old(self).max_attempts(),
            final(self).current_bins() == old(self).current_bins(),
            final(self).feasible_bins() == old(self).feasible_bins(),
            final(self).target() == old(self).target(),
            final(self).pre_n_bins() == old(self).pre_n_bins(),
            final(self).phase() == ExplorationPhase::Idle,
            final(self).attempt() == old(self).attempt() + 1,
            final(self).blacklist() == old(self).blacklist().push(old(self).target()),
    {
        self.attempt = self.attempt + 1;
        self.blacklist.push(self.target);
        self.phase = ExplorationPhase::Idle;
    }
}

/// Exploration never makes more attempts than configured.
pub proof fn lemma_attempts_bounded(e: &BPExploration)
    requires
        e.wf(),
    ensures
        e.attempt() <= e.max_attempts(),
{
}

/// Between steps, the bin count exploration tracks is that of the last
/// kept solution.
pub proof fn lemma_current_bins_is_last_kept(e: &BPExploration)
    requires
        e.wf(),
    ensures
        e.current_bins() == e.feasible_bins().last(),
{
}

/// In a strictly decreasing sequence, an element exceeds a later one by at
/// least their distance.
pub proof fn lemma_strictly_decreasing_gap(s: Seq<nat>, i: int, j: int)
    requires
        forall|a: int, b: int| 0 <= a < b < s.len() ==> #[trigger] s[b] < #[trigger] s[a],
        0 <= i <= j < s.len(),
    ensures
        s[i] >= s[j] + (j - i),
    decreases j - i,
{
    if i < j {
        lemma_strictly_decreasing_gap(s, i + 1, j);
        assert(s[i + 1] < s[i]);
    }
}

/// Exploration keeps no more solutions than the initial solution has bins
/// (one, for an initial solution without bins): a removal is only tried with
/// at least two bins open, and each kept solution has fewer bins than the
/// one before.
pub proof fn lemma_kept_solutions_within_initial_bins(e: &BPExploration)
    requires
        e.wf(),
    ensures
        e.feasible_bins().len() <= e.feasible_bins()[0] + 1,
        e.feasible_bins().len() >= 2 ==> e.feasible_bins().len() <= e.feasible_bins()[0],
{
    let s = e.feasible_bins();
    let n = s.len();
    lemma_strictly_decreasing_gap(s, 0, n - 1);
    if n >= 2 {
        assert(s[n - 2] >= 2);
        lemma_strictly_decreasing_gap(s, 0, n - 2);
    }
}

/// Over a whole run, exploration keeps at most one feasible solution per
/// attempt besides the initial one, and none has more bins than the initial
/// solution.
pub proof fn lemma_kept_solutions_bounded(e: &BPExploration)
    requires
        e.wf(),
    ensures
        e.feasible_bins().len() <= e.attempt() + 1,
        e.feasible_bins().len() <= e.max_attempts() + 1,
        forall|i: int| 0 <= i < e.feasible_bins().len() ==> #[trigger] e.feasible_bins()[i]
            <= e.feasible_bins()[0],
{
    assert forall|i: int| 0 <= i < e.feasible_bins().len() implies #[trigger] e.feasible_bins()[i]
        <= e.feasible_bins()[0] by {
        if i > 0 {
            assert(e.feasible_bins()[i] < e.feasible_bins()[0]);
        }
    }
}

/// The feasible solutions kept by exploration have strictly fewer bins, one
/// after the other: the last one kept has the fewest bins.
pub proof fn lemma_kept_solutions_shrink(e: &BPExploration, i: int, j: int)
    requires
        e.wf(),
        0 <= i < j < e.feasible_bins().len(),
    ensures
        e.feasible_bins()[j] < e.feasible_bins()[i],
        e.feasible_bins().last() <= e.feasible_bins()[i],
{
}

} // verus!
