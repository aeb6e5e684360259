//! Control of the multi-layout separator for bin packing.
//!
//! Separation runs in strikes. Within a strike, every open layout with at
//! least two items is swept, each colliding item trying one move; the total
//! loss after the sweep decides whether the state is kept as the new best,
//! whether the stall counter resets, and when the strike ends. After each
//! strike the best state is restored; the strike counter grows unless the
//! strike improved the loss by more than two percent.
//!
//! Losses reach this module as order keys (see `util::order_key`), each with
//! the key of the same loss scaled by 0.98, which the caller computes.
use vstd::prelude::*;
use rand::rngs::Xoshiro256PlusPlus;
use rand::seq::SliceRandom;
use crate::util::order_key::{float_le, float_lt, spec_float_le, spec_float_lt, ZERO_KEY};
use crate::util::rank::{id_range, vec_contains};

verus! {

broadcast use vstd::seq_lib::group_seq_properties;

#[verifier::external_type_specification]
#[verifier::external_body]
pub struct ExXoshiro256PlusPlus(Xoshiro256PlusPlus);

/// What the loss after a sweep means for the separator.
#[derive(Debug, Clone, Copy, PartialEq, Eq, Structural)]
pub enum PassVerdict {
    /// Every layout is free of overlap: save the state as the best and stop.
    Feasible,
    /// The loss is below the best so far: report the state, save it as the
    /// best, update the weights and go on.
    Improved,
    /// No improvement: update the weights and go on.
    Stalled,
}

#[derive(Debug, Clone, Copy, PartialEq, Eq, Structural)]
pub enum SeparationPhase {
    /// Between strikes.
    Outer,
    /// In a strike, before a sweep.
    Inner,
    /// A sweep was asked for; waiting for its loss.
    AwaitingPass,
    /// Separation has ended.
    Done,
}

/// The strike and stall counters of one separation run.
pub struct SeparationControl {
    strike_limit: usize,
    iter_no_imprv_limit: usize,
    n_strikes: usize,
    n_iter_no_improvement: usize,
    min_loss: u64,
    min_loss_scaled: u64,
    initial_strike_scaled: u64,
    phase: SeparationPhase,
}

impl SeparationControl {
    pub closed spec fn strike_limit(&self) -> nat {
        self.strike_limit as nat
    }

    pub closed spec fn iter_no_imprv_limit(&self) -> nat {
        self.iter_no_imprv_limit as nat
    }

    /// Consecutive strikes that did not improve the loss by two percent.
    pub closed spec fn n_strikes(&self) -> nat {
        self.n_strikes as nat
    }

    /// Sweeps since the last improvement by two percent, in this strike.
    pub closed spec fn n_iter_no_improvement(&self) -> nat {
        self.n_iter_no_improvement as nat
    }

    /// Key of the least loss seen (that of the best saved state).
    pub closed spec fn min_loss(&self) -> u64 {
        self.min_loss
    }

    /// Key of the least loss seen, scaled by 0.98.
    pub closed spec fn min_loss_scaled(&self) -> u64 {
        self.min_loss_scaled
    }

    /// Key of the loss at the start of the strike, scaled by 0.98.
    pub closed spec fn initial_strike_scaled(&self) -> u64 {
        self.initial_strike_scaled
    }

    pub closed spec fn phase(&self) -> SeparationPhase {
        self.phase
    }

    pub closed spec fn wf(&self) -> bool {
        &&& self.n_strikes <= self.strike_limit
        &&& self.n_iter_no_improvement <= self.iter_no_imprv_limit
        &&& self.phase == SeparationPhase::AwaitingPass ==> self.n_iter_no_improvement
            < self.iter_no_imprv_limit
        &&& (self.phase == SeparationPhase::Inner || self.phase == SeparationPhase::AwaitingPass)
            ==> self.n_strikes < self.strike_limit
    }

    /// Starts a run from the current state, whose loss key (and scaled loss
    /// key) is given; that state is the first best state.
    pub fn new(strike_limit: usize, iter_no_imprv_limit: usize, loss: u64, loss_scaled: u64) -> (c:
        Self)
        ensures
            c.wf(),
            c.strike_limit() == strike_limit,
            c.iter_no_imprv_limit() == iter_no_imprv_limit,
            c.n_strikes() == 0,
            c.n_iter_no_improvement() == 0,
            c.min_loss() == loss,
            c.min_loss_scaled() == loss_scaled,
            c.phase() == SeparationPhase::Outer,
    {
        SeparationControl {
            strike_limit,
            iter_no_imprv_limit,
            n_strikes: 0,
            n_iter_no_improvement: 0,
            min_loss: loss,
            min_loss_scaled: loss_scaled,
            initial_strike_scaled: loss_scaled,
            phase: SeparationPhase::Outer,
        }
    }

    /// Decides whether a new strike begins, given whether termination was
    /// asked for and the current loss (scaled). A strike begins while fewer
    /// strikes than the limit were counted and no termination was asked for;
    /// otherwise the run ends and the best saved state is its result.
    pub fn begin_strike(&mut self, killed: bool, loss_scaled: u64) -> (go: bool)
        requires
            old(self).wf(),
            old(self).phase() == SeparationPhase::Outer,
        ensures
            final(self).wf(),
            go == (old(self).n_strikes() < old(self).strike_limit() && !killed),
            final(self).strike_limit() == old(self).strike_limit(),
            final(self).iter_no_imprv_limit() == old(self).iter_no_imprv_limit(),
            final(self).n_strikes() == old(self).n_strikes(),
            final(self).min_loss() == old(self).min_loss(),
            final(self).min_loss_scaled() == old(self).min_loss_scaled(),
            go ==> final(self).phase() == SeparationPhase::Inner && final(self).n_iter_no_improvement()
                == 0 && final(self).initial_strike_scaled() == loss_scaled,
            !go ==> final(self).phase() == SeparationPhase::Done && final(self).n_iter_no_improvement()
                == old(self).n_iter_no_improvement(),
    {
        if self.n_strikes < self.strike_limit && !killed {
            self.initial_strike_scaled = loss_scaled;
            self.n_iter_no_improvement = 0;
            self.phase = SeparationPhase::Inner;
            true
        } else {
            self.phase = SeparationPhase::Done;
            false
        }
    }

    /// Decides whether another sweep runs in this strike, given whether
    /// termination was asked for. When not, the strike ends: the strike
    /// counter grows when the best loss is not below 98% of the strike's
    /// initial loss and resets otherwise, and the caller restores the best
    /// saved state.
    pub fn next_pass(&mut self, killed: bool) -> (sweep: bool)
        requires
            old(self).wf(),
            old(self).phase() == SeparationPhase::Inner,
        ensures
            final(self).wf(),
            sweep == (old(self).n_iter_no_improvement() < old(self).iter_no_imprv_limit() && !killed),
            final(self).strike_limit() == old(self).strike_limit(),
            final(self).iter_no_imprv_limit() == old(self).iter_no_imprv_limit(),
            final(self).n_iter_no_improvement() == old(self).n_iter_no_improvement(),
            final(self).min_loss() == old(self).min_loss(),
            final(self).min_loss_scaled() == old(self).min_loss_scaled(),
            final(self).initial_strike_scaled() == old(self).initial_strike_scaled(),
            sweep ==> final(self).phase() == SeparationPhase::AwaitingPass && final(self).n_strikes()
                == old(self).n_strikes(),
            !sweep ==> final(self).phase() == SeparationPhase::Outer,
            !sweep && spec_float_le(old(self).initial_strike_scaled(), old(self).min_loss())
                ==> final(self).n_strikes() == old(self).n_strikes() + 1,
            !sweep && !spec_float_le(old(self).initial_strike_scaled(), old(self).min_loss())
                ==> final(self).n_strikes() == 0,
    {
        if self.n_iter_no_improvement < self.iter_no_imprv_limit && !killed {
            self.phase = SeparationPhase::AwaitingPass;
            true
        } else {
            if float_le(self.initial_strike_scaled, self.min_loss) {
                self.n_strikes = self.n_strikes + 1;
            } else {
                self.n_strikes = 0;
            }
            self.phase = SeparationPhase::Outer;
            false
        }
    }

    /// Takes the total loss after a sweep (and its scaled key). Zero loss
    /// ends the run with the current state as best. A loss below the best
    /// becomes the best (and resets the stall counter when it is below 98% of
    /// the previous best); any other loss counts one more stalled sweep.
    pub fn pass_result(&mut self, loss: u64, loss_scaled: u64) -> (v: PassVerdict)
        requires
            old(self).wf(),
            old(self).phase() == SeparationPhase::AwaitingPass,
        ensures
            final(self).wf(),
            final(self).strike_limit() == old(self).strike_limit(),
            final(self).iter_no_imprv_limit() == old(self).iter_no_imprv_limit(),
            final(self).n_strikes() == old(self).n_strikes(),
            final(self).initial_strike_scaled() == old(self).initial_strike_scaled(),
            final(self).min_loss() <= old(self).min_loss() || loss == ZERO_KEY,
            loss == ZERO_KEY ==> {
                &&& v == PassVerdict::Feasible
                &&& final(self).phase() == SeparationPhase::Done
                &&& final(self).min_loss() == ZERO_KEY
                &&& final(self).min_loss_scaled() == loss_scaled
                &&& final(self).n_iter_no_improvement() == old(self).n_iter_no_improvement()
            },
            loss != ZERO_KEY && spec_float_lt(loss, old(self).min_loss()) ==> {
                &&& v == PassVerdict::Improved
                &&& final(self).phase() == SeparationPhase::Inner
                &&& final(self).min_loss() == loss
                &&& final(self).min_loss_scaled() == loss_scaled
                &&& final(self).n_iter_no_improvement() == if spec_float_lt(
                    loss,
                    old(self).min_loss_scaled(),
                ) {
                    0
                } else {
                    old(self).n_iter_no_improvement()
                }
            },
            loss != ZERO_KEY && !spec_float_lt(loss, old(self).min_loss()) ==> {
                &&& v == PassVerdict::Stalled
                &&& final(self).phase() == SeparationPhase::Inner
                &&& final(self).min_loss() == old(self).min_loss()
                &&& final(self).min_loss_scaled() == old(self).min_loss_scaled()
                &&& final(self).n_iter_no_improvement() == old(self).n_iter_no_improvement() + 1
            },
    {
        if loss == ZERO_KEY {
            self.min_loss = ZERO_KEY;
            self.min_loss_scaled = loss_scaled;
            self.phase = SeparationPhase::Done;
            PassVerdict::Feasible
        } else if float_lt(loss, self.min_loss) {
            if float_lt(loss, self.min_loss_scaled) {
                self.n_iter_no_improvement = 0;
            }
            self.min_loss = loss;
            self.min_loss_scaled = loss_scaled;
            self.phase = SeparationPhase::Inner;
            PassVerdict::Improved
        } else {
            self.n_iter_no_improvement = self.n_iter_no_improvement + 1;
            self.phase = SeparationPhase::Inner;
            PassVerdict::Stalled
        }
    }
}

/// Where the collision tracker of a live layout comes from after a restore.
#[derive(Debug, Clone, Copy, PartialEq, Eq, Structural)]
pub enum TrackerSource {
    /// The snapshot holds a tracker for the layout: copy it.
    Snapshot,
    /// The snapshot holds none: build one from the layout.
    Rebuild,
}

/// Ids of `held` that are not among `live`.
pub open spec fn not_live(live: Seq<u64>) -> spec_fn(u64) -> bool {
    |k: u64| !live.contains(k)
}

/// How to bring the per-layout collision trackers in line with the layouts
/// after the problem was restored: `live` are the layout keys of the restored
/// problem, `held` those that hold a tracker now, `snapshot` those for which
/// the snapshot holds one. Returns the trackers to drop (those of layouts no
/// longer open, in `held` order) and, for each live layout, where its
/// tracker comes from.
pub fn tracker_restore_plan(live: &Vec<u64>, held: &Vec<u64>, snapshot: &Vec<u64>) -> (r: (
    Vec<u64>,
    Vec<TrackerSource>,
))
    ensures
        r.0@ == held@.filter(not_live(live@)),
        forall|i: int|
            0 <= i < r.0.len() ==> held@.contains(#[trigger] r.0@[i]) && !live@.contains(r.0@[i]),
        forall|k: u64| held@.contains(k) && !live@.contains(k) ==> #[trigger] r.0@.contains(k),
        r.1.len() == live.len(),
        forall|i: int|
            0 <= i < live.len() ==> #[trigger] r.1@[i] == if snapshot@.contains(live@[i]) {
                TrackerSource::Snapshot
            } else {
                TrackerSource::Rebuild
            },
{
    let mut stale: Vec<u64> = Vec::new();
    let mut i: usize = 0;
    while i < held.len()
        invariant
            i <= held.len(),
            stale@ == held@.take(i as int).filter(not_live(live@)),
        decreases held.len() - i,
    {
        proof {
            reveal(Seq::filter);
            assert(held@.take(i + 1).drop_last() =~= held@.take(i as int));
        }
        if !vec_contains(live, held[i]) {
            stale.push(held[i]);
        }
        i = i + 1;
    }
    assert(held@.take(held.len() as int) =~= held@);
    proof {
        broadcast use vstd::seq_lib::group_filter_ensures;
        assert forall|i: int| 0 <= i < stale.len() implies held@.contains(#[trigger] stale@[i])
            && !live@.contains(stale@[i]) by {
            held@.lemma_filter_pred(not_live(live@), i);
            held@.lemma_filter_contains_rev(not_live(live@), stale@[i]);
        }
        assert forall|k: u64| held@.contains(k) && !live@.contains(k) implies #[trigger] stale@.contains(
            k,
        ) by {
            let t = choose|t: int| 0 <= t < held.len() && held@[t] == k;
            held@.lemma_filter_contains(not_live(live@), t);
        }
    }
    let mut sources: Vec<TrackerSource> = Vec::new();
    let mut j: usize = 0;
    while j < live.len()
        invariant
            j <= live.len(),
            sources.len() == j,
            forall|t: int|
                0 <= t < j ==> #[trigger] sources@[t] == if snapshot@.contains(live@[t]) {
                    TrackerSource::Snapshot
                } else {
                    TrackerSource::Rebuild
                },
        decreases live.len() - j,
    {
        if vec_contains(snapshot, live[j]) {
            sources.push(TrackerSource::Snapshot);
        } else {
            sources.push(TrackerSource::Rebuild);
        }
        j = j + 1;
    }
    (stale, sources)
}

/// After following a restore plan, exactly the live layouts hold a tracker:
/// dropping the stale trackers and setting one for every live layout leaves
/// the set of held layouts equal to the set of live layouts.
pub proof fn lemma_restore_plan_tracks_live(live: Seq<u64>, held: Seq<u64>)
    ensures
        held.to_set().difference(held.filter(not_live(live)).to_set()).union(live.to_set())
            == live.to_set(),
{
    broadcast use vstd::seq_lib::group_filter_ensures;
    let stale = held.filter(not_live(live));
    let lhs = held.to_set().difference(stale.to_set()).union(live.to_set());
    assert forall|k: u64| lhs.contains(k) implies live.to_set().contains(k) by {
        if !live.contains(k) {
            assert(held.contains(k) ==> stale.contains(k));
        }
    }
    assert(lhs =~= live.to_set());
}

/// Positions of the layouts that a sweep visits: those with at least two
/// items (a move in a single-item layout would close and reopen it).
pub open spec fn sweepable(item_counts: Seq<usize>) -> spec_fn(usize) -> bool {
    |i: usize| (i as int) < item_counts.len() && item_counts[i as int] >= 2
}

/// The layouts a sweep visits, in the problem's order, given the number of
/// items in each open layout.
pub fn layouts_to_sweep(item_counts: &Vec<usize>) -> (r: Vec<usize>)
    ensures
        r@ == id_range(item_counts.len() as nat).filter(sweepable(item_counts@)),
        forall|i: int|
            0 <= i < r.len() ==> (#[trigger] r@[i] as int) < item_counts.len() && item_counts@[r@[i] as int]
                >= 2,
        forall|x: usize|
            (x as int) < item_counts.len() && item_counts@[x as int] >= 2 ==> #[trigger] r@.contains(x),
{
    let n = item_counts.len();
    let mut r: Vec<usize> = Vec::new();
    let mut i: usize = 0;
    while i < n
        invariant
            n == item_counts.len(),
            i <= n,
            r@ == id_range(i as nat).filter(sweepable(item_counts@)),
        decreases n - i,
    {
        proof {
            reveal(Seq::filter);
            assert(id_range((i + 1) as nat).drop_last() =~= id_range(i as nat));
        }
        if item_counts[i] >= 2 {
            r.push(i);
        }
        i = i + 1;
    }
    proof {
        crate::util::rank::lemma_id_filter_members(n as nat, sweepable(item_counts@));
    }
    r
}

/// `SliceRandom::shuffle` from `rand`. The rand documentation states that it
/// permutes the slice in place (uniformly at random); the contract claims only
/// that the result is a permutation of the input, which holds of every
/// outcome.
#[verifier::external_body]
pub(crate) fn rand_shuffle(v: &mut Vec<u64>, rng: &mut Xoshiro256PlusPlus)
    ensures
        final(v)@.to_multiset() == old(v)@.to_multiset(),
{
    v.shuffle(rng);
}

/// Items that collide: those whose loss is above zero (a NaN loss is not).
pub open spec fn colliding(piks: Seq<u64>, loss_keys: Seq<u64>) -> Seq<u64> {
    id_range(piks.len()).filter(|i: usize| (i as int) < loss_keys.len() && spec_float_lt(
        ZERO_KEY,
        loss_keys[i as int],
    )).map_values(|i: usize| piks[i as int])
}

/// The items of a layout that try a move in this sweep, in random order:
/// those whose loss (as an order key) is above zero. `piks` are the placed-item
/// keys of the layout and `loss_keys` their losses.
pub fn collision_candidates(piks: &Vec<u64>, loss_keys: &Vec<u64>, rng: &mut Xoshiro256PlusPlus) -> (r:
    Vec<u64>)
    requires
        piks.len() == loss_keys.len(),
    ensures
        r@.to_multiset() == colliding(piks@, loss_keys@).to_multiset(),
{
    let mut r: Vec<u64> = Vec::new();
    let mut i: usize = 0;
    let ghost pred = |i: usize| (i as int) < loss_keys@.len() && spec_float_lt(ZERO_KEY, loss_keys@[i as int]);
    while i < piks.len()
        invariant
            i <= piks.len(),
            piks.len() == loss_keys.len(),
            pred == (|i: usize| (i as int) < loss_keys@.len() && spec_float_lt(
                ZERO_KEY,
                loss_keys@[i as int],
            )),
            r@ == id_range(i as nat).filter(pred).map_values(|j: usize| piks@[j as int]),
        decreases piks.len() - i,
    {
        proof {
            reveal(Seq::filter);
            assert(id_range((i + 1) as nat).drop_last() =~= id_range(i as nat));
        }
        if float_lt(ZERO_KEY, loss_keys[i]) {
            r.push(piks[i]);
            assert(r@ =~= id_range((i + 1) as nat).filter(pred).map_values(|j: usize| piks@[j as int]));
        } else {
            assert(r@ =~= id_range((i + 1) as nat).filter(pred).map_values(|j: usize| piks@[j as int]));
        }
        i = i + 1;
    }
    rand_shuffle(&mut r, rng);
    r
}

/// What becomes of a candidate when its turn comes in a sweep.
#[derive(Debug, Clone, Copy, PartialEq, Eq, Structural)]
pub enum CandidateAction {
    /// It no longer collides, or it is no longer in the layout: skip it.
    Skip,
    /// The layout was closed: end the sweep of this layout.
    Stop,
    /// Search a new position for it and move it there.
    Move,
}

/// The decision for a candidate (a loss that is not above zero, compared as
/// floats are, skips it), given its current loss key, whether its
/// layout is still open and whether it is still placed in it.
pub fn candidate_action(loss_key: u64, layout_open: bool, item_present: bool) -> (a: CandidateAction)
    ensures
        spec_float_le(loss_key, ZERO_KEY) ==> a == CandidateAction::Skip,
        !spec_float_le(loss_key, ZERO_KEY) && !layout_open ==> a == CandidateAction::Stop,
        !spec_float_le(loss_key, ZERO_KEY) && layout_open && !item_present ==> a
            == CandidateAction::Skip,
        !spec_float_le(loss_key, ZERO_KEY) && layout_open && item_present ==> a
            == CandidateAction::Move,
{
    if float_le(loss_key, ZERO_KEY) {
        CandidateAction::Skip
    } else if !layout_open {
        CandidateAction::Stop
    } else if !item_present {
        CandidateAction::Skip
    } else {
        CandidateAction::Move
    }
}

} // verus!
