//! Facts about route construction and pool lookup in the model.
use vstd::prelude::*;

use crate::errors::ContractError;
use crate::model::{
    div_trunc, first_pool, fits_i128, hop_fee_total, mock_pools_spec, swap_output_spec, walk,
    BASIS_POINTS, RATE_SCALE,
};
use crate::types::{HopView, PoolView};

verus! {

/// Whether no two pools of a list swap the same pair of assets.
pub open spec fn unique_pairs(pools: Seq<PoolView>) -> bool {
    forall|i: int, j: int|
        0 <= i < j < pools.len() ==> !(#[trigger] pools[i].asset_in == #[trigger] pools[j].asset_in
            && pools[i].asset_out == pools[j].asset_out)
}

/// A successful route construction through `n` pools has one hop per pool, each swapping
/// the pool's assets; the amount held is the last hop's output and the asset held the last
/// pool's output asset.
pub proof fn lemma_walk_hops(source: Seq<char>, amount: int, pools: Seq<PoolView>, n: nat)
    requires
        n <= pools.len(),
        walk(source, amount, pools, n) is Ok,
    ensures
        ({
            let st = walk(source, amount, pools, n)->Ok_0;
            &&& st.hops.len() == n
            &&& st.total_fee == hop_fee_total(st.hops)
            &&& forall|i: int|
                0 <= i < n ==> (#[trigger] st.hops[i]).source_asset == pools[i].asset_in
                    && st.hops[i].dest_asset == pools[i].asset_out
            &&& n == 0 ==> st.asset == source && st.amount == amount
            &&& n > 0 ==> st.asset == pools[n - 1].asset_out && st.amount == st.hops[n
                - 1].output_amount
        }),
    decreases n,
{
    if n > 0 {
        lemma_walk_hops(source, amount, pools, (n - 1) as nat);
        let prev = walk(source, amount, pools, (n - 1) as nat)->Ok_0;
        let st = walk(source, amount, pools, n)->Ok_0;
        assert(st.hops.drop_last() =~= prev.hops);
        assert forall|i: int| 0 <= i < n implies (#[trigger] st.hops[i]).source_asset
            == pools[i].asset_in && st.hops[i].dest_asset == pools[i].asset_out by {
            if i < n - 1 {
                assert(st.hops[i] == prev.hops[i]);
            }
        }
    }
}

/// Whether a hop is priced by a pool: its fee is the pool's fee rate on the hop's own input,
/// its output is the pool's swap output for that input, and its rate is output per input
/// scaled by `RATE_SCALE`.
pub open spec fn hop_priced_by(hop: HopView, pool: PoolView) -> bool {
    &&& hop.fee == div_trunc(hop.input_amount * pool.fee_rate, BASIS_POINTS as int)
    &&& swap_output_spec(
        hop.input_amount as int,
        pool.reserve_in as int,
        pool.reserve_out as int,
        pool.fee_rate as int,
    ) == Ok::<i128, ContractError>(hop.output_amount)
    &&& hop.rate == hop.output_amount * RATE_SCALE / (hop.input_amount as int)
}

/// A successful route construction through `n` pools swaps `amount` into the first hop and
/// each hop's output into the next, and prices each hop by its pool.
pub proof fn lemma_walk_hop_amounts(source: Seq<char>, amount: int, pools: Seq<PoolView>, n: nat)
    requires
        fits_i128(amount),
        n <= pools.len(),
        walk(source, amount, pools, n) is Ok,
    ensures
        ({
            let st = walk(source, amount, pools, n)->Ok_0;
            &&& fits_i128(st.amount)
            &&& n > 0 ==> st.hops[0].input_amount == amount
            &&& forall|i: int|
                0 <= i < n - 1 ==> (#[trigger] st.hops[i + 1]).input_amount
                    == st.hops[i].output_amount
            &&& forall|i: int| 0 <= i < n ==> hop_priced_by(#[trigger] st.hops[i], pools[i])
        }),
    decreases n,
{
    lemma_walk_hops(source, amount, pools, n);
    if n > 0 {
        lemma_walk_hop_amounts(source, amount, pools, (n - 1) as nat);
        lemma_walk_hops(source, amount, pools, (n - 1) as nat);
        let prev = walk(source, amount, pools, (n - 1) as nat)->Ok_0;
        let st = walk(source, amount, pools, n)->Ok_0;
        let pool = pools[n - 1];
        let x = prev.amount * pool.fee_rate;
        assert(fits_i128(div_trunc(x, BASIS_POINTS as int))) by {
            if fits_i128(x) {
                if x >= 0 {
                    assert(x / 10000 <= x);
                } else {
                    assert((-x) / 10000 <= -x);
                }
            }
        }
        let hop = st.hops[n - 1];
        assert(hop.input_amount == prev.amount);
        let out = hop.output_amount;
        if prev.amount > 0 && out > 0 && fits_i128(out * RATE_SCALE) {
            assert(0 <= out * RATE_SCALE / prev.amount <= out * RATE_SCALE) by (nonlinear_arith)
                requires
                    prev.amount > 0,
                    out > 0,
            ;
        }
        assert(hop_priced_by(hop, pool));
        assert forall|i: int| 0 <= i < n - 1 implies (#[trigger] st.hops[i + 1]).input_amount
            == st.hops[i].output_amount by {
            if i + 1 < n - 1 {
                assert(st.hops[i + 1] == prev.hops[i + 1]);
                assert(st.hops[i] == prev.hops[i]);
            } else {
                assert(st.hops[i] == prev.hops[i]);
            }
        }
        assert forall|i: int| 0 <= i < n implies hop_priced_by(#[trigger] st.hops[i], pools[i]) by {
            if i < n - 1 {
                assert(st.hops[i] == prev.hops[i]);
            }
        }
        if n > 1 {
            assert(st.hops[0] == prev.hops[0]);
        }
    }
}

/// In a list where no two pools swap the same pair, the lookup of a listed pool's pair
/// finds that pool.
pub proof fn lemma_first_pool_finds(pools: Seq<PoolView>, idx: int, i: nat)
    requires
        unique_pairs(pools),
        0 <= i <= idx < pools.len(),
    ensures
        first_pool(pools, pools[idx].asset_in, pools[idx].asset_out, i) == Some(pools[idx]),
    decreases idx - i,
{
    if i < idx {
        assert(!(pools[i as int].asset_in == pools[idx].asset_in && pools[i as int].asset_out
            == pools[idx].asset_out));
        lemma_first_pool_finds(pools, idx, i + 1);
    }
}

/// No two pools of the market swap the same pair of assets.
pub proof fn lemma_mock_pools_unique_pairs()
    ensures
        unique_pairs(mock_pools_spec()),
{
    reveal_strlit("USDC");
    reveal_strlit("XLM");
    reveal_strlit("EURC");
    reveal_strlit("BTC");
    reveal_strlit("AQUA");
    reveal_strlit("ETH");
    reveal_strlit("DEAD");
    reveal_strlit("SINK");
    let m = mock_pools_spec();
    assert("USDC"@ != "EURC"@) by { assert("USDC"@[0] != "EURC"@[0]); }
    assert("USDC"@ != "AQUA"@) by { assert("USDC"@[0] != "AQUA"@[0]); }
    assert("USDC"@ != "DEAD"@) by { assert("USDC"@[0] != "DEAD"@[0]); }
    assert("USDC"@ != "SINK"@) by { assert("USDC"@[0] != "SINK"@[0]); }
    assert("EURC"@ != "AQUA"@) by { assert("EURC"@[0] != "AQUA"@[0]); }
    assert("EURC"@ != "DEAD"@) by { assert("EURC"@[0] != "DEAD"@[0]); }
    assert("EURC"@ != "SINK"@) by { assert("EURC"@[0] != "SINK"@[0]); }
    assert("AQUA"@ != "DEAD"@) by { assert("AQUA"@[0] != "DEAD"@[0]); }
    assert("AQUA"@ != "SINK"@) by { assert("AQUA"@[0] != "SINK"@[0]); }
    assert("DEAD"@ != "SINK"@) by { assert("DEAD"@[0] != "SINK"@[0]); }
    assert("XLM"@ != "BTC"@) by { assert("XLM"@[0] != "BTC"@[0]); }
    assert("XLM"@ != "ETH"@) by { assert("XLM"@[0] != "ETH"@[0]); }
    assert("BTC"@ != "ETH"@) by { assert("BTC"@[0] != "ETH"@[0]); }
    assert forall|i: int, j: int| 0 <= i < j < m.len() implies !(#[trigger] m[i].asset_in
        == #[trigger] m[j].asset_in && m[i].asset_out == m[j].asset_out) by {
        assert(m[0].asset_in == "USDC"@ && m[0].asset_out == "XLM"@);
        assert(m[1].asset_in == "USDC"@ && m[1].asset_out == "EURC"@);
        assert(m[2].asset_in == "EURC"@ && m[2].asset_out == "XLM"@);
        assert(m[3].asset_in == "USDC"@ && m[3].asset_out == "BTC"@);
        assert(m[4].asset_in == "BTC"@ && m[4].asset_out == "XLM"@);
        assert(m[5].asset_in == "XLM"@ && m[5].asset_out == "AQUA"@);
        assert(m[6].asset_in == "AQUA"@ && m[6].asset_out == "USDC"@);
        assert(m[7].asset_in == "EURC"@ && m[7].asset_out == "ETH"@);
        assert(m[8].asset_in == "ETH"@ && m[8].asset_out == "XLM"@);
        assert(m[9].asset_in == "BTC"@ && m[9].asset_out == "ETH"@);
        assert(m[10].asset_in == "XLM"@ && m[10].asset_out == "USDC"@);
        assert(m[11].asset_in == "EURC"@ && m[11].asset_out == "DEAD"@);
        assert(m[12].asset_in == "DEAD"@ && m[12].asset_out == "SINK"@);
    }
}

} // verus!
