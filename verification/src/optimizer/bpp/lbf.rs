//! Left-Bottom-Fill construction for bin packing: the order in which items are
//! placed, which open bins are tried for an item and in which order, which
//! bin types are tried (cheapest first) when none accepts it, and when
//! construction fails.
//!
//! The placement searches themselves (geometry and sampling) are made by the
//! caller; `LbfItemPlacement` tells it which search to run next and what to do
//! with each verdict.
use vstd::prelude::*;
use crate::util::order_key::{float_le, spec_float_le};
use crate::util::rank::{
    flipped_keys, id_range, ids_index_keys, is_stable_ascending, is_stable_descending,
    itertools_sorted_by_cached_key, lemma_flipped_ascending_is_descending, lemma_sorted_selection,
    slice_sort_by_key,
};

verus! {

broadcast use vstd::seq_lib::group_seq_properties;

/// Why construction could not place an item.
#[derive(Debug, Clone, Copy, PartialEq, Eq, Structural)]
pub enum BPLBFError {
    /// No bin type with available stock can hold the item.
    ItemDoesNotFitAnyBin { item_id: usize },
    /// All bin types are out of stock and the item cannot be placed in any
    /// currently open bin.
    OutOfBinStock { item_id: usize },
}

/// Item types in construction order: by size key (convex-hull area times
/// diameter, as an order key) from largest to smallest, items of equal key in
/// id order.
pub fn lbf_item_order(size_keys: &Vec<u64>) -> (r: Vec<usize>)
    ensures
        is_stable_descending(r@, id_range(size_keys.len() as nat), size_keys@),
{
    let n = size_keys.len();
    let mut ids: Vec<usize> = Vec::new();
    let mut i: usize = 0;
    while i < n
        invariant
            n == size_keys.len(),
            i <= n,
            ids@ == id_range(i as nat),
        decreases n - i,
    {
        ids.push(i);
        i = i + 1;
        assert(ids@ =~= id_range(i as nat));
    }
    let flipped = flipped_keys(size_keys);
    let ghost s = ids@;
    let r = itertools_sorted_by_cached_key(ids, &flipped);
    proof {
        lemma_flipped_ascending_is_descending(r@, s, size_keys@, flipped@);
    }
    r
}

/// `order` with each id repeated as many times as `demand` asks for it.
pub open spec fn expand_by_demand(order: Seq<usize>, demand: Seq<usize>) -> Seq<usize>
    decreases order.len(),
{
    if order.len() == 0 {
        Seq::empty()
    } else {
        expand_by_demand(order.drop_last(), demand) + Seq::new(
            demand[order.last() as int] as nat,
            |j: int| order.last(),
        )
    }
}

/// Each id of `order`, repeated `demand[id]` times, in the order of `order`.
pub fn expand_order_by_demand(order: &Vec<usize>, demand: &Vec<usize>) -> (r: Vec<usize>)
    requires
        ids_index_demand(order@, demand@),
    ensures
        r@ == expand_by_demand(order@, demand@),
{
    let mut r: Vec<usize> = Vec::new();
    let mut i: usize = 0;
    while i < order.len()
        invariant
            i <= order.len(),
            ids_index_demand(order@, demand@),
            r@ == expand_by_demand(order@.take(i as int), demand@),
        decreases order.len() - i,
    {
        let id = order[i];
        let qty = demand[id];
        let mut j: usize = 0;
        while j < qty
            invariant
                j <= qty,
                r@ == expand_by_demand(order@.take(i as int), demand@) + Seq::new(
                    j as nat,
                    |t: int| id,
                ),
            decreases qty - j,
        {
            r.push(id);
            j = j + 1;
            assert(r@ =~= expand_by_demand(order@.take(i as int), demand@) + Seq::new(
                j as nat,
                |t: int| id,
            ));
        }
        assert(order@.take(i + 1).drop_last() =~= order@.take(i as int));
        assert(r@ =~= expand_by_demand(order@.take(i + 1), demand@));
        i = i + 1;
    }
    assert(order@.take(order.len() as int) =~= order@);
    r
}

/// Every id of `order` indexes `demand`.
pub open spec fn ids_index_demand(order: Seq<usize>, demand: Seq<usize>) -> bool {
    forall|i: int| 0 <= i < order.len() ==> (#[trigger] order[i] as int) < demand.len()
}

/// The item sequence that construction places: item types in construction
/// order, each repeated as many times as it is demanded.
pub fn lbf_construction_sequence(size_keys: &Vec<u64>, demand: &Vec<usize>) -> (r: Vec<usize>)
    requires
        demand.len() == size_keys.len(),
    ensures
        exists|order: Seq<usize>|
            is_stable_descending(order, id_range(size_keys.len() as nat), size_keys@)
                && r@ == #[trigger] expand_by_demand(order, demand@),
{
    let order = lbf_item_order(size_keys);
    proof {
        crate::util::rank::lemma_permutation_elements(order@, id_range(size_keys.len() as nat));
        assert forall|i: int| 0 <= i < order@.len() implies (#[trigger] order@[i] as int)
            < demand@.len() by {
            assert(id_range(size_keys.len() as nat).contains(order@[i]));
        }
    }
    let r = expand_order_by_demand(&order, demand);
    assert(is_stable_descending(order@, id_range(size_keys.len() as nat), size_keys@)
        && r@ == expand_by_demand(order@, demand@));
    r
}

/// Positions `i` whose free area is at least the item's area, compared as
/// floats are (false when either is NaN).
pub open spec fn fits_by_area(free_keys: Seq<u64>, item_area_key: u64) -> spec_fn(usize) -> bool {
    |i: usize| (i as int) < free_keys.len() && spec_float_le(item_area_key, free_keys[i as int])
}

/// The open layouts worth trying for an item, tightest first: the positions
/// whose free area (as an order key) is at least the item's area, sorted
/// stably by free area, ascending.
pub fn candidate_layouts(free_keys: &Vec<u64>, item_area_key: u64) -> (r: Vec<usize>)
    ensures
        is_stable_ascending(
            r@,
            id_range(free_keys.len() as nat).filter(fits_by_area(free_keys@, item_area_key)),
            free_keys@,
        ),
        forall|i: int|
            0 <= i < r.len() ==> (#[trigger] r@[i] as int) < free_keys.len() && spec_float_le(
                item_area_key,
                free_keys@[r@[i] as int],
            ),
        forall|x: usize|
            (x as int) < free_keys.len() && spec_float_le(item_area_key, free_keys@[x as int])
                ==> #[trigger] r@.contains(x),
        forall|x: usize|
            (x as int) < free_keys.len() && spec_float_le(item_area_key, free_keys@[x as int])
                ==> free_keys@[r@[0] as int] <= #[trigger] free_keys@[x as int],
{
    let n = free_keys.len();
    let mut ids: Vec<usize> = Vec::new();
    let mut i: usize = 0;
    while i < n
        invariant
            n == free_keys.len(),
            i <= n,
            ids@ == id_range(i as nat).filter(fits_by_area(free_keys@, item_area_key)),
            forall|j: int| 0 <= j < ids.len() ==> (#[trigger] ids@[j] as int) < i,
        decreases n - i,
    {
        proof {
            reveal(Seq::filter);
            assert(id_range((i + 1) as nat).drop_last() =~= id_range(i as nat));
        }
        if float_le(item_area_key, free_keys[i]) {
            ids.push(i);
        }
        i = i + 1;
    }
    slice_sort_by_key(&mut ids, free_keys);
    proof {
        lemma_sorted_selection(
            ids@,
            free_keys.len() as nat,
            fits_by_area(free_keys@, item_area_key),
            free_keys@,
        );
    }
    ids
}

/// Bin types that still have stock.
pub open spec fn has_stock(stock: Seq<usize>) -> spec_fn(usize) -> bool {
    |b: usize| (b as int) < stock.len() && stock[b as int] > 0
}

/// The bin types that may be opened when no open bin accepts an item, in the
/// order they are tried: the types that still have stock, cheapest first,
/// types of equal cost in id order.
pub fn bin_types_by_cost(stock: &Vec<usize>, costs: &Vec<u64>) -> (r: Vec<usize>)
    requires
        stock.len() == costs.len(),
    ensures
        is_stable_ascending(r@, id_range(stock.len() as nat).filter(has_stock(stock@)), costs@),
        forall|i: int|
            0 <= i < r.len() ==> (#[trigger] r@[i] as int) < stock.len() && stock@[r@[i] as int] > 0,
        forall|x: usize| (x as int) < stock.len() && stock@[x as int] > 0 ==> #[trigger] r@.contains(x),
        forall|x: usize|
            (x as int) < stock.len() && stock@[x as int] > 0 ==> costs@[r@[0] as int]
                <= #[trigger] costs@[x as int],
{
    let n = stock.len();
    let mut ids: Vec<usize> = Vec::new();
    let mut i: usize = 0;
    while i < n
        invariant
            n == stock.len(),
            n == costs.len(),
            i <= n,
            ids@ == id_range(i as nat).filter(has_stock(stock@)),
            forall|j: int| 0 <= j < ids.len() ==> (#[trigger] ids@[j] as int) < i,
        decreases n - i,
    {
        proof {
            reveal(Seq::filter);
            assert(id_range((i + 1) as nat).drop_last() =~= id_range(i as nat));
        }
        if stock[i] > 0 {
            ids.push(i);
        }
        i = i + 1;
    }
    slice_sort_by_key(&mut ids, costs);
    proof {
        lemma_sorted_selection(ids@, stock.len() as nat, has_stock(stock@), costs@);
    }
    ids
}

/// What a placement search found for the item.
#[derive(Debug, Clone, Copy, PartialEq, Eq, Structural)]
pub enum SearchVerdict {
    /// A collision-free position was found.
    Clear,
    /// No collision-free position was found.
    Blocked,
}

/// The next thing the caller does while placing one item.
#[derive(Debug, Clone, Copy, PartialEq, Eq, Structural)]
pub enum LbfStep {
    /// Search a collision-free position in the open layout at this position
    /// of the caller's layout list, and report the verdict.
    SearchOpenLayout { layout: usize },
    /// Place the item at the position just found in that open layout; done.
    PlaceInOpenLayout { layout: usize },
    /// Search a collision-free position in an empty layout of this bin type,
    /// and report the verdict.
    SearchNewBin { bin_id: usize },
    /// Open a bin of this type with the item at the position just found; done.
    OpenNewBin { bin_id: usize },
    /// Construction fails with this error; done.
    Fail { error: BPLBFError },
}

/// The step that asks for search number `k` (from 0): the candidate layouts
/// in order, then the bin types in order; after them, failure: out of stock
/// when no type has stock, otherwise no type holds the item.
pub open spec fn lbf_search_step(
    cands: Seq<usize>,
    bins: Seq<usize>,
    item_id: usize,
    k: int,
) -> LbfStep {
    if k < cands.len() {
        LbfStep::SearchOpenLayout { layout: cands[k] }
    } else if k < cands.len() + bins.len() {
        LbfStep::SearchNewBin { bin_id: bins[k - cands.len()] }
    } else if bins.len() == 0 {
        LbfStep::Fail { error: BPLBFError::OutOfBinStock { item_id } }
    } else {
        LbfStep::Fail { error: BPLBFError::ItemDoesNotFitAnyBin { item_id } }
    }
}

/// The step after the verdict of search number `k`: a clear search places
/// the item where it was searched; a blocked one moves to the next search.
pub open spec fn lbf_verdict_step(
    cands: Seq<usize>,
    bins: Seq<usize>,
    item_id: usize,
    k: int,
    verdict: SearchVerdict,
) -> LbfStep {
    match verdict {
        SearchVerdict::Clear => if k < cands.len() {
            LbfStep::PlaceInOpenLayout { layout: cands[k] }
        } else {
            LbfStep::OpenNewBin { bin_id: bins[k - cands.len()] }
        },
        SearchVerdict::Blocked => lbf_search_step(cands, bins, item_id, k + 1),
    }
}

pub open spec fn is_search_step(step: LbfStep) -> bool {
    step is SearchOpenLayout || step is SearchNewBin
}

/// The placement of one item during construction: tries the candidate open
/// layouts tightest first, then the bin types with stock cheapest first.
pub struct LbfItemPlacement {
    item_id: usize,
    candidates: Vec<usize>,
    bin_types: Vec<usize>,
    pending: usize,
    awaiting: bool,
    done: bool,
}

impl LbfItemPlacement {
    pub closed spec fn item(&self) -> usize {
        self.item_id
    }

    /// Positions of the open layouts to try, in order.
    pub closed spec fn candidates(&self) -> Seq<usize> {
        self.candidates@
    }

    /// Bin types to try when no open layout accepts the item, in order.
    pub closed spec fn bin_types(&self) -> Seq<usize> {
        self.bin_types@
    }

    /// Number (from 0) of the last search asked for.
    pub closed spec fn pending(&self) -> nat {
        self.pending as nat
    }

    /// A search was asked for and its verdict is pending.
    pub closed spec fn awaiting(&self) -> bool {
        self.awaiting
    }

    /// The item is placed or construction failed.
    pub closed spec fn done(&self) -> bool {
        self.done
    }

    pub closed spec fn wf(&self) -> bool {
        &&& self.candidates@.len() + self.bin_types@.len() <= usize::MAX
        &&& self.awaiting ==> !self.done && self.pending < self.candidates@.len()
            + self.bin_types@.len()
        &&& !self.awaiting && !self.done ==> self.pending == 0
    }

    /// Starts placing `item_id` given, for each open layout in the caller's
    /// order, its free area as an order key, the item's area as an order key,
    /// and for each bin type its remaining stock and its cost.
    pub fn new(
        item_id: usize,
        free_keys: &Vec<u64>,
        item_area_key: u64,
        stock: &Vec<usize>,
        costs: &Vec<u64>,
    ) -> (p: Self)
        requires
            stock.len() == costs.len(),
            free_keys.len() + stock.len() <= usize::MAX,
        ensures
            p.wf(),
            p.item() == item_id,
            is_stable_ascending(
                p.candidates(),
                id_range(free_keys.len() as nat).filter(fits_by_area(free_keys@, item_area_key)),
                free_keys@,
            ),
            is_stable_ascending(
                p.bin_types(),
                id_range(stock.len() as nat).filter(has_stock(stock@)),
                costs@,
            ),
            forall|i: int|
                0 <= i < p.candidates().len() ==> (#[trigger] p.candidates()[i] as int)
                    < free_keys.len() && spec_float_le(
                    item_area_key,
                    free_keys@[p.candidates()[i] as int],
                ),
            forall|x: usize|
                (x as int) < free_keys.len() && spec_float_le(item_area_key, free_keys@[x as int])
                    ==> #[trigger] p.candidates().contains(x),
            forall|x: usize|
                (x as int) < free_keys.len() && spec_float_le(item_area_key, free_keys@[x as int])
                    ==> free_keys@[p.candidates()[0] as int] <= #[trigger] free_keys@[x as int],
            forall|i: int|
                0 <= i < p.bin_types().len() ==> (#[trigger] p.bin_types()[i] as int) < stock.len()
                    && stock@[p.bin_types()[i] as int] > 0,
            forall|x: usize|
                (x as int) < stock.len() && stock@[x as int] > 0 ==> #[trigger] p.bin_types().contains(
                    x,
                ),
            forall|x: usize|
                (x as int) < stock.len() && stock@[x as int] > 0 ==> costs@[p.bin_types()[0] as int]
                    <= #[trigger] costs@[x as int],
            p.pending() == 0,
            !p.awaiting(),
            !p.done(),
    {
        let candidates = candidate_layouts(free_keys, item_area_key);
        let bin_types = bin_types_by_cost(stock, costs);
        proof {
            broadcast use vstd::seq_lib::group_filter_ensures;
            crate::util::rank::lemma_permutation_elements(
                candidates@,
                id_range(free_keys.len() as nat).filter(fits_by_area(free_keys@, item_area_key)),
            );
            crate::util::rank::lemma_permutation_elements(
                bin_types@,
                id_range(stock.len() as nat).filter(has_stock(stock@)),
            );
        }
        LbfItemPlacement { item_id, candidates, bin_types, pending: 0, awaiting: false, done: false }
    }

    /// The first step: search the tightest candidate layout, or the cheapest
    /// bin type, or fail when there is neither.
    pub fn start(&mut self) -> (step: LbfStep)
        requires
            old(self).wf(),
            !old(self).awaiting(),
            !old(self).done(),
        ensures
            final(self).wf(),
            step == lbf_search_step(old(self).candidates(), old(self).bin_types(), old(self).item(), 0),
            final(self).item() == old(self).item(),
            final(self).candidates() == old(self).candidates(),
            final(self).bin_types() == old(self).bin_types(),
            is_search_step(step) ==> final(self).awaiting() && final(self).pending() == 0,
            !is_search_step(step) ==> final(self).done() && !final(self).awaiting(),
            old(self).candidates().len() > 0 ==> step == (LbfStep::SearchOpenLayout {
                layout: old(self).candidates()[0],
            }),
            old(self).candidates().len() == 0 && old(self).bin_types().len() > 0 ==> step == (
            LbfStep::SearchNewBin { bin_id: old(self).bin_types()[0] }),
            old(self).candidates().len() == 0 && old(self).bin_types().len() == 0 ==> step == (
            LbfStep::Fail { error: BPLBFError::OutOfBinStock { item_id: old(self).item() } }),
    {
        let step = self.search_step(0);
        if step.is_search() {
            self.awaiting = true;
        } else {
            self.done = true;
        }
        step
    }

    /// Takes the verdict of the pending search and returns the next step.
    pub fn take_verdict(&mut self, verdict: SearchVerdict) -> (step: LbfStep)
        requires
            old(self).wf(),
            old(self).awaiting(),
        ensures
            final(self).wf(),
            step == lbf_verdict_step(
                old(self).candidates(),
                old(self).bin_types(),
                old(self).item(),
                old(self).pending() as int,
                verdict,
            ),
            final(self).item() == old(self).item(),
            final(self).candidates() == old(self).candidates(),
            final(self).bin_types() == old(self).bin_types(),
            is_search_step(step) ==> final(self).awaiting() && final(self).pending()
                == old(self).pending() + 1,
            !is_search_step(step) ==> final(self).done() && !final(self).awaiting(),
            ({
                let k = old(self).pending() as int;
                let cands = old(self).candidates();
                let bins = old(self).bin_types();
                let n = cands.len() as int;
                let b = bins.len() as int;
                &&& verdict == SearchVerdict::Clear && k < n ==> step == (LbfStep::PlaceInOpenLayout {
                    layout: cands[k],
                })
                &&& verdict == SearchVerdict::Clear && k >= n ==> k - n < b && step == (
                LbfStep::OpenNewBin { bin_id: bins[k - n] })
                &&& verdict == SearchVerdict::Blocked && k + 1 < n ==> step == (
                LbfStep::SearchOpenLayout { layout: cands[k + 1] })
                &&& verdict == SearchVerdict::Blocked && n <= k + 1 < n + b ==> step == (
                LbfStep::SearchNewBin { bin_id: bins[k + 1 - n] })
                &&& verdict == SearchVerdict::Blocked && k + 1 >= n + b && b == 0 ==> step == (
                LbfStep::Fail { error: BPLBFError::OutOfBinStock { item_id: old(self).item() } })
                &&& verdict == SearchVerdict::Blocked && k + 1 >= n + b && b > 0 ==> step == (
                LbfStep::Fail {
                    error: BPLBFError::ItemDoesNotFitAnyBin { item_id: old(self).item() },
                })
            }),
    {
        let k = self.pending;
        let n = self.candidates.len();
        let step = match verdict {
            SearchVerdict::Clear => {
                if k < n {
                    LbfStep::PlaceInOpenLayout { layout: self.candidates[k] }
                } else {
                    LbfStep::OpenNewBin { bin_id: self.bin_types[k - n] }
                }
            },
            SearchVerdict::Blocked => self.search_step(k + 1),
        };
        if step.is_search() {
            self.pending = k + 1;
        } else {
            self.awaiting = false;
            self.done = true;
        }
        step
    }

    fn search_step(&self, k: usize) -> (step: LbfStep)
        requires
            k <= self.candidates@.len() + self.bin_types@.len(),
        ensures
            step == lbf_search_step(self.candidates@, self.bin_types@, self.item_id, k as int),
            is_search_step(step) ==> k < self.candidates@.len() + self.bin_types@.len(),
    {
        let n = self.candidates.len();
        if k < n {
            LbfStep::SearchOpenLayout { layout: self.candidates[k] }
        } else if k - n < self.bin_types.len() {
            LbfStep::SearchNewBin { bin_id: self.bin_types[k - n] }
        } else if self.bin_types.len() == 0 {
            LbfStep::Fail { error: BPLBFError::OutOfBinStock { item_id: self.item_id } }
        } else {
            LbfStep::Fail { error: BPLBFError::ItemDoesNotFitAnyBin { item_id: self.item_id } }
        }
    }
}

impl LbfStep {
    pub fn is_search(&self) -> (b: bool)
        ensures
            b == is_search_step(*self),
    {
        match self {
            LbfStep::SearchOpenLayout { .. } => true,
            LbfStep::SearchNewBin { .. } => true,
            _ => false,
        }
    }
}

/// Search order: every candidate layout is searched, in order, before any
/// bin type; bin types follow in order; a new bin is never searched while a
/// candidate layout is left.
pub proof fn lemma_search_order(cands: Seq<usize>, bins: Seq<usize>, item_id: usize, k: int)
    requires
        0 <= k,
    ensures
        k < cands.len() ==> lbf_search_step(cands, bins, item_id, k) == (LbfStep::SearchOpenLayout {
            layout: cands[k],
        }),
        cands.len() <= k < cands.len() + bins.len() ==> lbf_search_step(cands, bins, item_id, k) == (
        LbfStep::SearchNewBin { bin_id: bins[k - cands.len()] }),
        lbf_search_step(cands, bins, item_id, k) is SearchNewBin ==> k >= cands.len(),
        lbf_search_step(cands, bins, item_id, k) is Fail ==> k >= cands.len() + bins.len(),
{
}

/// A clear verdict places the item exactly where the search that found the
/// position looked: in the open layout it searched, or in a new bin of the
/// type it searched.
pub proof fn lemma_clear_places_where_searched(
    cands: Seq<usize>,
    bins: Seq<usize>,
    item_id: usize,
    k: int,
)
    requires
        0 <= k,
    ensures
        lbf_search_step(cands, bins, item_id, k) matches LbfStep::SearchOpenLayout { layout }
            ==> lbf_verdict_step(cands, bins, item_id, k, SearchVerdict::Clear) == (
        LbfStep::PlaceInOpenLayout { layout }),
        lbf_search_step(cands, bins, item_id, k) matches LbfStep::SearchNewBin { bin_id }
            ==> lbf_verdict_step(cands, bins, item_id, k, SearchVerdict::Clear) == (
        LbfStep::OpenNewBin { bin_id }),
        k < cands.len() ==> lbf_verdict_step(cands, bins, item_id, k, SearchVerdict::Clear) == (
        LbfStep::PlaceInOpenLayout { layout: cands[k] }),
{
}

/// A blocked verdict moves to the next search: the next candidate layout,
/// else the next bin type; failure comes only after the last bin type (or,
/// with no bin type in stock, after the last candidate).
pub proof fn lemma_blocked_moves_on(cands: Seq<usize>, bins: Seq<usize>, item_id: usize, k: int)
    requires
        0 <= k,
    ensures
        k + 1 < cands.len() ==> lbf_verdict_step(cands, bins, item_id, k, SearchVerdict::Blocked)
            == (LbfStep::SearchOpenLayout { layout: cands[k + 1] }),
        cands.len() <= k + 1 < cands.len() + bins.len() ==> lbf_verdict_step(
            cands,
            bins,
            item_id,
            k,
            SearchVerdict::Blocked,
        ) == (LbfStep::SearchNewBin { bin_id: bins[k + 1 - cands.len()] }),
        lbf_verdict_step(cands, bins, item_id, k, SearchVerdict::Blocked) is Fail ==> k + 1
            >= cands.len() + bins.len(),
{
}

/// A run of `m` copies of `x` holds `x` exactly `m` times and nothing else.
pub proof fn lemma_repeat_count(m: nat, x: usize, y: usize)
    ensures
        Seq::new(m, |j: int| x).to_multiset().count(y) == if y == x {
            m
        } else {
            0
        },
    decreases m,
{
    broadcast use vstd::seq_lib::group_to_multiset_ensures;
    if m == 0 {
        assert(Seq::new(0, |j: int| x) =~= Seq::<usize>::empty());
    } else {
        lemma_repeat_count((m - 1) as nat, x, y);
        assert(Seq::new(m, |j: int| x) =~= Seq::new((m - 1) as nat, |j: int| x).push(x));
    }
}

/// Each id occurs in the expanded order as many times as it occurs in the
/// order, times its demand.
pub proof fn lemma_expand_count(order: Seq<usize>, demand: Seq<usize>, x: usize)
    requires
        ids_index_demand(order, demand),
        (x as int) < demand.len(),
    ensures
        expand_by_demand(order, demand).to_multiset().count(x) == order.to_multiset().count(x)
            * demand[x as int],
    decreases order.len(),
{
    broadcast use vstd::seq_lib::group_to_multiset_ensures;
    if order.len() == 0 {
        assert(order.to_multiset().count(x) == 0);
    } else {
        let rest = order.drop_last();
        let last = order.last();
        assert(ids_index_demand(rest, demand));
        lemma_expand_count(rest, demand, x);
        let rep = Seq::new(demand[last as int] as nat, |j: int| last);
        vstd::seq_lib::lemma_multiset_commutative(expand_by_demand(rest, demand), rep);
        lemma_repeat_count(demand[last as int] as nat, last, x);
        assert(order =~= rest.push(last));
        let c = rest.to_multiset().count(x);
        let d = demand[x as int] as int;
        if last == x {
            assert(order.to_multiset().count(x) == c + 1);
            assert((c + 1) * d == c * d + d) by (nonlinear_arith);
        } else {
            assert(order.to_multiset().count(x) == c);
        }
    }
}

/// Construction places every demanded copy of every item type exactly once:
/// in the sequence of any order of all item types, each type occurs as many
/// times as it is demanded, and no other id occurs.
pub proof fn lemma_construction_covers_demand(order: Seq<usize>, demand: Seq<usize>)
    requires
        demand.len() <= usize::MAX,
        order.to_multiset() == id_range(demand.len()).to_multiset(),
    ensures
        forall|x: usize|
            (x as int) < demand.len() ==> #[trigger] expand_by_demand(order, demand).to_multiset().count(x)
                == demand[x as int],
        forall|i: int|
            0 <= i < expand_by_demand(order, demand).len() ==> (#[trigger] expand_by_demand(
                order,
                demand,
            )[i] as int) < demand.len(),
{
    broadcast use vstd::seq_lib::group_to_multiset_ensures;
    let n = demand.len();
    crate::util::rank::lemma_permutation_elements(order, id_range(n));
    assert(ids_index_demand(order, demand)) by {
        assert forall|i: int| 0 <= i < order.len() implies (#[trigger] order[i] as int) < demand.len() by {
            assert(id_range(n).contains(order[i]));
        }
    }
    assert(id_range(n).no_duplicates()) by {
        assert forall|i: int, j: int| 0 <= i < id_range(n).len() && 0 <= j < id_range(n).len() && i
            != j implies id_range(n)[i] != id_range(n)[j] by {
            assert(id_range(n)[i] as int == i);
            assert(id_range(n)[j] as int == j);
        }
    }
    id_range(n).lemma_multiset_has_no_duplicates();
    assert forall|x: usize| (x as int) < demand.len() implies #[trigger] expand_by_demand(
        order,
        demand,
    ).to_multiset().count(x) == demand[x as int] by {
        lemma_expand_count(order, demand, x);
        assert(id_range(n)[x as int] == x);
        assert(id_range(n).contains(x));
        assert(id_range(n).to_multiset().contains(x));
        assert(order.to_multiset().count(x) == 1);
        assert(1 * demand[x as int] == demand[x as int]);
    }
    lemma_expand_elements(order, demand);
}

/// Every id of the expanded order is an id of the order.
pub proof fn lemma_expand_elements(order: Seq<usize>, demand: Seq<usize>)
    requires
        ids_index_demand(order, demand),
    ensures
        forall|i: int|
            0 <= i < expand_by_demand(order, demand).len() ==> (#[trigger] expand_by_demand(
                order,
                demand,
            )[i] as int) < demand.len(),
    decreases order.len(),
{
    if order.len() > 0 {
        let rest = order.drop_last();
        assert(ids_index_demand(rest, demand));
        lemma_expand_elements(rest, demand);
        let e = expand_by_demand(order, demand);
        let r = expand_by_demand(rest, demand);
        assert forall|i: int| 0 <= i < e.len() implies (#[trigger] e[i] as int) < demand.len() by {
            if i < r.len() {
                assert(e[i] == r[i]);
            } else {
                assert(e[i] == order.last());
            }
        }
    }
}

/// The construction sequence is determined by the size keys and the
/// demand: any two orders that meet the contract of `lbf_item_order` are the
/// same, and so are their expansions.
pub proof fn lemma_construction_sequence_determined(
    o1: Seq<usize>,
    o2: Seq<usize>,
    size_keys: Seq<u64>,
    demand: Seq<usize>,
)
    requires
        is_stable_descending(o1, id_range(size_keys.len()), size_keys),
        is_stable_descending(o2, id_range(size_keys.len()), size_keys),
    ensures
        o1 == o2,
        expand_by_demand(o1, demand) == expand_by_demand(o2, demand),
{
    crate::util::rank::lemma_stable_descending_unique(o1, o2, id_range(size_keys.len()), size_keys);
}

} // verus!
