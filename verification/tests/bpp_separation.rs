use std::collections::BTreeSet;
use rand::rngs::Xoshiro256PlusPlus;
use rand::SeedableRng;
use sparrow::optimizer::bpp::separator::{
    candidate_action, collision_candidates, layouts_to_sweep, tracker_restore_plan, CandidateAction,
    PassVerdict, SeparationControl, TrackerSource,
};
use sparrow::util::order_key::{order_key, ZERO_KEY};

fn key(x: f32) -> u64 {
    order_key(x.to_bits())
}

fn scaled(x: f32) -> u64 {
    key(x * 0.98)
}

#[test]
fn separation_stops_at_zero_loss() {
    let mut c = SeparationControl::new(3, 2, key(10.0), scaled(10.0));
    assert!(c.begin_strike(false, scaled(10.0)));
    assert!(c.next_pass(false));
    assert_eq!(c.pass_result(key(9.0), scaled(9.0)), PassVerdict::Improved);
    assert!(c.next_pass(false));
    assert_eq!(c.pass_result(key(0.0), scaled(0.0)), PassVerdict::Feasible);
}

#[test]
fn separation_counts_strikes_and_stalls() {
    let mut c = SeparationControl::new(2, 2, key(10.0), scaled(10.0));
    // strike 1: a small improvement (above 98%) does not reset the stall count
    assert!(c.begin_strike(false, scaled(10.0)));
    assert!(c.next_pass(false));
    assert_eq!(c.pass_result(key(9.9), scaled(9.9)), PassVerdict::Improved);
    assert!(c.next_pass(false));
    assert_eq!(c.pass_result(key(11.0), scaled(11.0)), PassVerdict::Stalled);
    assert!(c.next_pass(false));
    assert_eq!(c.pass_result(key(9.95), scaled(9.95)), PassVerdict::Stalled);
    // two stalls: the strike ends; 9.9 is not below 98% of 10.0: one strike
    assert!(!c.next_pass(false));
    // strike 2 from the restored best (9.9)
    assert!(c.begin_strike(false, scaled(9.9)));
    assert!(c.next_pass(false));
    assert_eq!(c.pass_result(key(5.0), scaled(5.0)), PassVerdict::Improved);
    assert!(c.next_pass(false));
    assert_eq!(c.pass_result(key(6.0), scaled(6.0)), PassVerdict::Stalled);
    assert!(c.next_pass(false));
    assert_eq!(c.pass_result(key(6.0), scaled(6.0)), PassVerdict::Stalled);
    // big improvement: strikes reset, so another strike begins
    assert!(!c.next_pass(false));
    assert!(c.begin_strike(false, scaled(5.0)));
    assert!(c.next_pass(false));
    assert_eq!(c.pass_result(key(5.0), scaled(5.0)), PassVerdict::Stalled);
    assert!(c.next_pass(false));
    assert_eq!(c.pass_result(key(5.0), scaled(5.0)), PassVerdict::Stalled);
    assert!(!c.next_pass(false));
    assert!(c.begin_strike(false, scaled(5.0)));
    assert!(!c.next_pass(true));
    // two strikes without improvement: done
    assert!(!c.begin_strike(false, scaled(5.0)));
}

#[test]
fn separation_stops_when_killed() {
    let mut c = SeparationControl::new(3, 2, key(1.0), scaled(1.0));
    assert!(!c.begin_strike(true, scaled(1.0)));
}

#[test]
fn restore_plan_drops_stale_and_rebuilds_missing() {
    let (stale, sources) = tracker_restore_plan(&vec![1, 2, 5], &vec![1, 3, 2, 4], &vec![2, 5, 7]);
    assert_eq!(stale, vec![3, 4]);
    assert_eq!(sources, vec![TrackerSource::Rebuild, TrackerSource::Snapshot, TrackerSource::Snapshot]);
}

#[test]
fn sweep_skips_layouts_with_fewer_than_two_items() {
    assert_eq!(layouts_to_sweep(&vec![3, 1, 2, 0, 5]), vec![0, 2, 4]);
}

#[test]
fn candidates_are_the_colliding_items() {
    let mut rng = Xoshiro256PlusPlus::seed_from_u64(7);
    let piks = vec![10, 11, 12, 13];
    let losses = vec![key(0.0), key(2.5), key(0.0), key(0.1)];
    let mut c = collision_candidates(&piks, &losses, &mut rng);
    c.sort();
    assert_eq!(c, vec![11, 13]);
}

#[test]
fn candidate_decisions() {
    assert_eq!(candidate_action(ZERO_KEY, true, true), CandidateAction::Skip);
    assert_eq!(candidate_action(key(1.0), false, true), CandidateAction::Stop);
    assert_eq!(candidate_action(key(1.0), true, false), CandidateAction::Skip);
    assert_eq!(candidate_action(key(1.0), true, true), CandidateAction::Move);
}

#[test]
fn restore_plan_leaves_exactly_the_live_layouts() {
    let live = vec![4, 9, 2];
    let held = vec![9, 7, 1, 4];
    let snapshot = vec![2, 7];
    let (stale, sources) = tracker_restore_plan(&live, &held, &snapshot);
    let mut after: BTreeSet<u64> = held.iter().copied().collect();
    for k in &stale {
        after.remove(k);
    }
    for k in &live {
        after.insert(*k);
    }
    assert_eq!(after, live.iter().copied().collect::<BTreeSet<u64>>());
    assert_eq!(sources, vec![TrackerSource::Rebuild, TrackerSource::Rebuild, TrackerSource::Snapshot]);
}

#[test]
fn best_loss_never_grows() {
    let mut c = SeparationControl::new(5, 3, key(8.0), scaled(8.0));
    assert!(c.begin_strike(false, scaled(8.0)));
    let losses = [9.0f32, 7.0, 7.5, 3.0];
    let expected = [PassVerdict::Stalled, PassVerdict::Improved, PassVerdict::Stalled, PassVerdict::Improved];
    for (l, v) in losses.iter().zip(expected.iter()) {
        assert!(c.next_pass(false));
        assert_eq!(c.pass_result(key(*l), scaled(*l)), *v);
    }
}

#[test]
fn nan_losses_compare_as_floats() {
    let mut rng = Xoshiro256PlusPlus::seed_from_u64(3);
    let c = collision_candidates(&vec![1, 2], &vec![key(f32::NAN), key(1.0)], &mut rng);
    assert_eq!(c, vec![2]);
    assert_eq!(candidate_action(key(f32::NAN), true, true), CandidateAction::Move);
    let mut s = SeparationControl::new(2, 2, key(f32::NAN), key(f32::NAN));
    assert!(s.begin_strike(false, key(f32::NAN)));
    assert!(s.next_pass(false));
    assert_eq!(s.pass_result(key(1.0), scaled(1.0)), PassVerdict::Stalled);
}
