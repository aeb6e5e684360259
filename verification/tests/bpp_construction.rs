use sparrow::optimizer::bpp::lbf::{
    bin_types_by_cost, candidate_layouts, expand_order_by_demand, lbf_construction_sequence,
    lbf_item_order, BPLBFError, LbfItemPlacement, LbfStep, SearchVerdict,
};
use sparrow::util::order_key::order_key;

fn key(x: f32) -> u64 {
    order_key(x.to_bits())
}

#[test]
fn items_are_ordered_largest_first_ties_by_id() {
    let sizes = [2.0f32, 8.0, 2.0, 5.0];
    let keys: Vec<u64> = sizes.iter().map(|s| key(*s)).collect();
    assert_eq!(lbf_item_order(&keys), vec![1, 3, 0, 2]);
}

#[test]
fn construction_sequence_repeats_each_item_by_demand() {
    let keys: Vec<u64> = [1.0f32, 3.0, 2.0].iter().map(|s| key(*s)).collect();
    let demand = vec![2, 1, 0];
    assert_eq!(lbf_construction_sequence(&keys, &demand), vec![1, 0, 0]);
    assert_eq!(expand_order_by_demand(&vec![2, 0], &vec![3, 0, 2]), vec![2, 2, 0, 0, 0]);
    assert_eq!(expand_order_by_demand(&vec![], &vec![3]), Vec::<usize>::new());
}

#[test]
fn candidate_layouts_keep_fitting_ones_tightest_first() {
    // free areas of the open layouts, item area 4.0
    let free: Vec<u64> = [10.0f32, 3.0, 4.0, 6.0, 4.0].iter().map(|s| key(*s)).collect();
    assert_eq!(candidate_layouts(&free, key(4.0)), vec![2, 4, 3, 0]);
    assert_eq!(candidate_layouts(&free, key(20.0)), Vec::<usize>::new());
}

#[test]
fn bin_types_with_stock_cheapest_first() {
    let stock = vec![0, 2, 5, 1];
    let costs = vec![1, 7, 3, 3];
    assert_eq!(bin_types_by_cost(&stock, &costs), vec![2, 3, 1]);
    assert_eq!(bin_types_by_cost(&vec![0, 0], &vec![1, 2]), Vec::<usize>::new());
}

#[test]
fn placement_tries_candidates_then_bin_types() {
    let free: Vec<u64> = [5.0f32, 1.0, 3.0].iter().map(|s| key(*s)).collect();
    let mut p = LbfItemPlacement::new(7, &free, key(2.0), &vec![1, 1], &vec![9, 4]);
    assert_eq!(p.start(), LbfStep::SearchOpenLayout { layout: 2 });
    assert_eq!(p.take_verdict(SearchVerdict::Blocked), LbfStep::SearchOpenLayout { layout: 0 });
    assert_eq!(p.take_verdict(SearchVerdict::Blocked), LbfStep::SearchNewBin { bin_id: 1 });
    assert_eq!(p.take_verdict(SearchVerdict::Clear), LbfStep::OpenNewBin { bin_id: 1 });
}

#[test]
fn placement_opens_the_next_type_when_the_cheapest_is_blocked() {
    let mut p = LbfItemPlacement::new(5, &vec![], key(2.0), &vec![1, 1], &vec![1, 2]);
    assert_eq!(p.start(), LbfStep::SearchNewBin { bin_id: 0 });
    assert_eq!(p.take_verdict(SearchVerdict::Blocked), LbfStep::SearchNewBin { bin_id: 1 });
    assert_eq!(p.take_verdict(SearchVerdict::Clear), LbfStep::OpenNewBin { bin_id: 1 });
}

#[test]
fn placement_in_an_open_layout() {
    let free: Vec<u64> = [5.0f32, 3.0].iter().map(|s| key(*s)).collect();
    let mut p = LbfItemPlacement::new(0, &free, key(2.0), &vec![1], &vec![1]);
    assert_eq!(p.start(), LbfStep::SearchOpenLayout { layout: 1 });
    assert_eq!(p.take_verdict(SearchVerdict::Clear), LbfStep::PlaceInOpenLayout { layout: 1 });
}

#[test]
fn nan_free_area_is_not_a_candidate() {
    let free: Vec<u64> = [f32::NAN, 3.0].iter().map(|s| key(*s)).collect();
    assert_eq!(candidate_layouts(&free, key(2.0)), vec![1]);
}

#[test]
fn placement_errors() {
    let mut p = LbfItemPlacement::new(3, &vec![], key(2.0), &vec![0, 0], &vec![1, 1]);
    assert_eq!(
        p.start(),
        LbfStep::Fail { error: BPLBFError::OutOfBinStock { item_id: 3 } }
    );
    let mut q = LbfItemPlacement::new(4, &vec![key(9.0)], key(2.0), &vec![2, 1], &vec![1, 1]);
    assert_eq!(q.start(), LbfStep::SearchOpenLayout { layout: 0 });
    assert_eq!(q.take_verdict(SearchVerdict::Blocked), LbfStep::SearchNewBin { bin_id: 0 });
    assert_eq!(q.take_verdict(SearchVerdict::Blocked), LbfStep::SearchNewBin { bin_id: 1 });
    assert_eq!(
        q.take_verdict(SearchVerdict::Blocked),
        LbfStep::Fail { error: BPLBFError::ItemDoesNotFitAnyBin { item_id: 4 } }
    );
}

#[test]
fn construction_places_each_demanded_copy_once() {
    let keys: Vec<u64> = [3.0f32, 1.0, 2.0, 2.0].iter().map(|s| key(*s)).collect();
    let demand = vec![2, 3, 0, 1];
    let seq = lbf_construction_sequence(&keys, &demand);
    for id in 0..demand.len() {
        assert_eq!(seq.iter().filter(|x| **x == id).count(), demand[id]);
    }
    assert_eq!(seq, vec![0, 0, 3, 1, 1, 1]);
}
