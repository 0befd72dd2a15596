use vstd::prelude::*;

use crate::model::{graph_spec, pools_with_input, GraphView};
use crate::types::{Pool, PoolView, pools_view};

verus! {

/// One asset of a [`PoolGraph`] and the pools that take it as input.
pub struct GraphEntry {
    asset: String,
    pools: Vec<Pool>,
}

/// The pools of a market keyed by their input asset: for each asset, the pools that take it,
/// in the order of the list that the graph was built from.
pub struct PoolGraph {
    entries: Vec<GraphEntry>,
}

impl PoolGraph {
    /// No asset has two entries.
    #[verifier::type_invariant]
    spec fn keys_distinct(self) -> bool {
        forall|i: int, j: int|
            0 <= i < j < self.entries@.len() ==> #[trigger] self.entries@[i].asset@
                != #[trigger] self.entries@[j].asset@
    }

    /// The index of the entry for `asset`.
    spec fn entry_index(self, asset: Seq<char>) -> int {
        choose|i: int| 0 <= i < self.entries@.len() && #[trigger] self.entries@[i].asset@ == asset
    }

    /// Whether the graph has an entry for `asset`.
    spec fn has_entry(self, asset: Seq<char>) -> bool {
        exists|i: int| 0 <= i < self.entries@.len() && #[trigger] self.entries@[i].asset@ == asset
    }
}

impl View for PoolGraph {
    type V = GraphView;

    closed spec fn view(&self) -> GraphView {
        Map::new(
            |a: Seq<char>| self.has_entry(a),
            |a: Seq<char>| pools_view(self.entries@[self.entry_index(a)].pools@),
        )
    }
}

/// The distinct input assets of a list of pools, in order of first appearance.
spec fn input_assets(pools: Seq<PoolView>) -> Seq<Seq<char>>
    decreases pools.len(),
{
    if pools.len() == 0 {
        Seq::empty()
    } else {
        let rest = input_assets(pools.drop_last());
        if rest.contains(pools.last().asset_in) {
            rest
        } else {
            rest.push(pools.last().asset_in)
        }
    }
}

/// An asset is among the input assets exactly when some pool takes it as input.
proof fn lemma_input_assets_contains(pools: Seq<PoolView>, a: Seq<char>)
    ensures
        input_assets(pools).contains(a) <==> exists|m: int|
            0 <= m < pools.len() && #[trigger] pools[m].asset_in == a,
    decreases pools.len(),
{
    if pools.len() > 0 {
        let init = pools.drop_last();
        lemma_input_assets_contains(init, a);
        let rest = input_assets(init);
        if input_assets(pools).contains(a) {
            if rest.contains(a) {
                let m = choose|m: int| 0 <= m < init.len() && #[trigger] init[m].asset_in == a;
                assert(pools[m].asset_in == a);
            } else {
                assert(pools[pools.len() - 1].asset_in == a);
            }
        }
        if exists|m: int| 0 <= m < pools.len() && #[trigger] pools[m].asset_in == a {
            let m = choose|m: int| 0 <= m < pools.len() && #[trigger] pools[m].asset_in == a;
            if m < pools.len() - 1 {
                assert(init[m].asset_in == a);
                assert(rest.contains(a));
                if !rest.contains(pools.last().asset_in) {
                    let idx = choose|idx: int| 0 <= idx < rest.len() && rest[idx] == a;
                    assert(rest.push(pools.last().asset_in)[idx] == a);
                }
            } else {
                if !rest.contains(pools.last().asset_in) {
                    assert(rest.push(pools.last().asset_in)[rest.len() as int] == a);
                }
            }
        }
    }
}

/// No asset appears twice among the input assets.
proof fn lemma_input_assets_distinct(pools: Seq<PoolView>)
    ensures
        forall|i: int, j: int|
            0 <= i < j < input_assets(pools).len() ==> input_assets(pools)[i] != input_assets(pools)[j],
    decreases pools.len(),
{
    if pools.len() > 0 {
        lemma_input_assets_distinct(pools.drop_last());
        let rest = input_assets(pools.drop_last());
        let x = pools.last().asset_in;
        if !rest.contains(x) {
            let all = rest.push(x);
            assert forall|i: int, j: int| 0 <= i < j < all.len() implies all[i] != all[j] by {
                if j == rest.len() {
                    if rest[i] == x {
                        assert(rest.contains(x));
                    }
                }
            }
        }
    }
}

/// The pools of `pools` that take `asset` as input, in order.
fn pools_with(pools: &Vec<Pool>, asset: &String) -> (r: Vec<Pool>)
    ensures
        pools_view(r@) == pools_with_input(pools_view(pools@), asset@),
{
    let ghost pv = pools_view(pools@);
    let mut r: Vec<Pool> = Vec::new();
    let mut j: usize = 0;
    while j < pools.len()
        invariant
            pv == pools_view(pools@),
            pv.len() == pools@.len(),
            j <= pools.len(),
            pools_view(r@) == pools_with_input(pv.take(j as int), asset@),
        decreases pools.len() - j,
    {
        assert(pv.take(j + 1).drop_last() =~= pv.take(j as int));
        assert(pv.take(j + 1).last() == pools@[j as int]@);
        if pools[j].asset_in == *asset {
            let ghost before = r@;
            r.push(pools[j].copy());
            assert(pools_view(r@) =~= pools_view(before).push(pools@[j as int]@));
        }
        j = j + 1;
    }
    assert(pv.take(pools.len() as int) =~= pv);
    r
}

impl PoolGraph {
    /// The graph of a list of pools: each asset that some pool takes as input, mapped to
    /// those pools in list order.
    pub fn from_pools(pools: &Vec<Pool>) -> (g: PoolGraph)
        ensures
            g@ == graph_spec(pools_view(pools@)),
    {
        let ghost pv = pools_view(pools@);
        let mut entries: Vec<GraphEntry> = Vec::new();
        let mut i: usize = 0;
        while i < pools.len()
            invariant
                pv == pools_view(pools@),
                pv.len() == pools@.len(),
                i <= pools.len(),
                entries@.len() == input_assets(pv.take(i as int)).len(),
                forall|k: int|
                    0 <= k < entries@.len() ==> (#[trigger] entries@[k]).asset@ == input_assets(
                        pv.take(i as int),
                    )[k],
                forall|k: int|
                    0 <= k < entries@.len() ==> pools_view((#[trigger] entries@[k]).pools@)
                        == pools_with_input(pv, entries@[k].asset@),
            decreases pools.len() - i,
        {
            let key = &pools[i].asset_in;
            let ghost keys = input_assets(pv.take(i as int));
            proof {
                assert(pv.take(i + 1).drop_last() =~= pv.take(i as int));
                assert(pv.take(i + 1).last() == pv[i as int]);
            }
            let mut found = false;
            let mut k: usize = 0;
            while k < entries.len()
                invariant
                    k <= entries.len(),
                    entries@.len() == keys.len(),
                    forall|e: int| 0 <= e < entries@.len() ==> (#[trigger] entries@[e]).asset@ == keys[e],
                    found == exists|e: int| 0 <= e < k && keys[e] == key@,
                decreases entries.len() - k,
            {
                if entries[k].asset == *key {
                    found = true;
                }
                k = k + 1;
            }
            proof {
                if found {
                    let e = choose|e: int| 0 <= e < k && keys[e] == key@;
                    assert(keys.contains(key@));
                } else {
                    assert(!keys.contains(key@));
                }
            }
            if !found {
                let entry = GraphEntry { asset: key.clone(), pools: pools_with(pools, key) };
                entries.push(entry);
            }
            i = i + 1;
        }
        proof {
            assert(pv.take(pools.len() as int) =~= pv);
            lemma_input_assets_distinct(pv);
        }
        let g = PoolGraph { entries };
        proof {
            let spec_g = graph_spec(pv);
            let keys = input_assets(pv);
            assert forall|a: Seq<char>| #[trigger] g@.dom().contains(a) == spec_g.dom().contains(a) by {
                lemma_input_assets_contains(pv, a);
                if g.has_entry(a) {
                    let k = choose|k: int| 0 <= k < g.entries@.len() && #[trigger] g.entries@[k].asset@ == a;
                    assert(keys[k] == a);
                }
                if keys.contains(a) {
                    let k = choose|k: int| 0 <= k < keys.len() && keys[k] == a;
                    assert(g.entries@[k].asset@ == a);
                }
            }
            assert forall|a: Seq<char>| #[trigger] g@.dom().contains(a) implies g@[a] == spec_g[a] by {
                let k = g.entry_index(a);
                assert(g.entries@[k].asset@ == a);
            }
            assert(g@ =~= spec_g);
        }
        g
    }

    /// The pools that take `asset` as input, where the graph has an entry for it.
    pub fn get(&self, asset: &String) -> (r: Option<&Vec<Pool>>)
        ensures
            match r {
                Some(pools) => self@.dom().contains(asset@) && pools_view(pools@) == self@[asset@],
                None => !self@.dom().contains(asset@),
            },
    {
        proof {
            use_type_invariant(self);
        }
        let mut i: usize = 0;
        while i < self.entries.len()
            invariant
                i <= self.entries.len(),
                forall|k: int| 0 <= k < i ==> (#[trigger] self.entries@[k]).asset@ != asset@,
            decreases self.entries.len() - i,
        {
            if self.entries[i].asset == *asset {
                proof {
                    use_type_invariant(self);
                    assert(self.has_entry(asset@));
                    let k = self.entry_index(asset@);
                    assert(self.entries@[k].asset@ == asset@);
                    assert(k == i);
                }
                return Some(&self.entries[i].pools);
            }
            i = i + 1;
        }
        None
    }
}

} // verus!
