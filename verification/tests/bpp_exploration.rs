use sparrow::optimizer::bpp::explore::{
    exploration_target, injection_target, reinjection_order, BPExploration,
    BPExplorationConfig, ExplorationEnd, ExplorationStep,
};
use sparrow::util::order_key::order_key;
use sparrow::util::rank::vec_contains;
use std::time::Duration;

fn key(x: f32) -> u64 {
    order_key(x.to_bits())
}

fn config(max: usize) -> BPExplorationConfig {
    BPExplorationConfig { max_bin_removal_attempts: max, time_limit: Duration::from_secs(1) }
}

#[test]
fn target_is_least_dense_not_blacklisted() {
    let layouts = vec![11, 12, 13, 14];
    let density: Vec<u64> = [0.9f32, 0.2, 0.5, 0.2].iter().map(|d| key(*d)).collect();
    assert_eq!(exploration_target(&layouts, &density, &vec![]), Some(12));
    assert_eq!(exploration_target(&layouts, &density, &vec![12]), Some(14));
    assert_eq!(exploration_target(&layouts, &density, &vec![12, 14, 13, 11]), None);
    assert!(vec_contains(&vec![3, 4], 4));
    assert!(!vec_contains(&vec![3, 4], 5));
}

#[test]
fn reinjection_is_largest_first_and_stable() {
    // areas of item types 0..3: 1.0, 4.0, 2.0; keys of the negated areas
    let neg: Vec<u64> = [1.0f32, 4.0, 2.0].iter().map(|a| key(-a)).collect();
    assert_eq!(reinjection_order(vec![0, 2, 1, 0, 2], &neg), vec![1, 2, 2, 0, 0]);
}

#[test]
fn injection_goes_to_most_free_area_last_of_ties() {
    let free: Vec<u64> = [1.0f32, 3.0, 3.0, 2.0].iter().map(|a| key(*a)).collect();
    assert_eq!(injection_target(&free), Some(2));
    assert_eq!(injection_target(&vec![]), None);
}

#[test]
fn exploration_accepts_a_removal_and_clears_the_blacklist() {
    let mut e = BPExploration::new(&config(5), 3);
    let layouts = vec![1, 2, 3];
    let dens: Vec<u64> = [0.8f32, 0.3, 0.6].iter().map(|d| key(*d)).collect();
    assert_eq!(e.begin_attempt(false, &layouts, &dens), ExplorationStep::RemoveLayout { layout: 2 });
    assert_eq!(e.removal_done(true), ExplorationStep::Separate);
    // still 3 bins: rolled back, layout 2 blacklisted
    assert_eq!(e.separation_done(3, true), ExplorationStep::RollBack);
    assert_eq!(e.begin_attempt(false, &layouts, &dens), ExplorationStep::RemoveLayout { layout: 3 });
    assert_eq!(e.removal_done(true), ExplorationStep::Separate);
    assert_eq!(e.separation_done(2, true), ExplorationStep::Accept);
    // blacklist cleared: layout 2 may be chosen again
    let layouts2 = vec![1, 2];
    let dens2: Vec<u64> = [0.9f32, 0.5].iter().map(|d| key(*d)).collect();
    assert_eq!(e.begin_attempt(false, &layouts2, &dens2), ExplorationStep::RemoveLayout { layout: 2 });
    assert_eq!(e.removal_done(false), ExplorationStep::RollBack);
    assert_eq!(
        e.begin_attempt(false, &layouts2, &dens2),
        ExplorationStep::RemoveLayout { layout: 1 }
    );
    assert_eq!(e.removal_done(true), ExplorationStep::Separate);
    // one bin left but overlapping: rolled back
    assert_eq!(e.separation_done(1, false), ExplorationStep::RollBack);
    assert_eq!(
        e.begin_attempt(false, &layouts2, &dens2),
        ExplorationStep::Finish { reason: ExplorationEnd::AllBlacklisted }
    );
}

#[test]
fn exploration_stops() {
    let mut e = BPExploration::new(&config(5), 1);
    assert_eq!(
        e.begin_attempt(false, &vec![9], &vec![key(0.5)]),
        ExplorationStep::Finish { reason: ExplorationEnd::SingleBin }
    );
    let mut k = BPExploration::new(&config(5), 2);
    assert_eq!(
        k.begin_attempt(true, &vec![1, 2], &vec![key(0.5), key(0.1)]),
        ExplorationStep::Finish { reason: ExplorationEnd::Terminated }
    );
    let mut z = BPExploration::new(&config(0), 2);
    assert_eq!(
        z.begin_attempt(false, &vec![1, 2], &vec![key(0.5), key(0.1)]),
        ExplorationStep::Finish { reason: ExplorationEnd::AttemptsExhausted }
    );
    let mut one = BPExploration::new(&config(1), 2);
    assert_eq!(
        one.begin_attempt(false, &vec![1, 2], &vec![key(0.5), key(0.1)]),
        ExplorationStep::RemoveLayout { layout: 2 }
    );
    assert_eq!(one.removal_done(false), ExplorationStep::RollBack);
    assert_eq!(
        one.begin_attempt(false, &vec![1, 2], &vec![key(0.5), key(0.1)]),
        ExplorationStep::Finish { reason: ExplorationEnd::AttemptsExhausted }
    );
}

#[test]
fn kept_solutions_follow_the_bin_count() {
    let mut e = BPExploration::new(&config(10), 3);
    let mut bins = vec![1u64, 2, 3];
    while bins.len() > 1 {
        let dens: Vec<u64> = bins.iter().map(|_| key(0.5)).collect();
        assert_eq!(e.n_bins(), bins.len());
        let step = e.begin_attempt(false, &bins, &dens);
        assert_eq!(step, ExplorationStep::RemoveLayout { layout: bins[0] });
        assert_eq!(e.removal_done(true), ExplorationStep::Separate);
        assert_eq!(e.separation_done(bins.len() - 1, true), ExplorationStep::Accept);
        bins.remove(0);
    }
    assert_eq!(e.n_bins(), 1);
    assert_eq!(
        e.begin_attempt(false, &bins, &vec![key(0.5)]),
        ExplorationStep::Finish { reason: ExplorationEnd::SingleBin }
    );
}
