//! Facts about the path search of the model, used to verify the search and its laws.
use vstd::prelude::*;

use crate::errors::ContractError;
use crate::model::{
    collect, liquidity_walk, consider_path, extend_path, extensions_of, graph_consistent, graph_spec,
    initial_queue, insert_by_score_spec, insert_position, is_graph_path, liquidity_spec,
    outgoing, path_touches, pools_with_input, queue_after, score_spec, score_value,
    search_steps, search_stops_at, sorted_by_score, GraphView, MAX_HOPS, MAX_QUEUE_EXPANSIONS,
};
use crate::types::PoolView;

verus! {

/// Each extension of `path` is `path` followed by one of `next` that leads to an asset the
/// path does not touch yet.
pub proof fn lemma_extensions_of(path: Seq<PoolView>, next: Seq<PoolView>)
    ensures
        forall|k: int|
            0 <= k < extensions_of(path, next).len() ==> exists|j: int|
                0 <= j < next.len() && #[trigger] extensions_of(path, next)[k] == path.push(
                    next[j],
                ) && !path_touches(path, next[j].asset_out),
    decreases next.len(),
{
    if next.len() > 0 {
        let init = next.drop_last();
        lemma_extensions_of(path, init);
        let rest = extensions_of(path, init);
        let all = extensions_of(path, next);
        assert forall|k: int| 0 <= k < all.len() implies exists|j: int|
            0 <= j < next.len() && #[trigger] all[k] == path.push(next[j]) && !path_touches(
                path,
                next[j].asset_out,
            ) by {
            if k < rest.len() {
                assert(all[k] == rest[k]);
                let j = choose|j: int|
                    0 <= j < init.len() && #[trigger] rest[k] == path.push(init[j]) && !path_touches(
                        path,
                        init[j].asset_out,
                    );
                assert(init[j] == next[j]);
            } else {
                assert(all[k] == path.push(next[next.len() - 1]));
            }
        }
    }
}

/// Every queued path has between 1 and `MAX_HOPS` pools.
pub proof fn lemma_queue_shape(g: GraphView, source: Seq<char>, dest: Seq<char>, n: nat)
    ensures
        forall|k: int|
            0 <= k < queue_after(g, source, dest, n).len() ==> 1 <= (#[trigger] queue_after(
                g,
                source,
                dest,
                n,
            )[k]).len() <= MAX_HOPS,
    decreases n,
{
    if n > 0 {
        lemma_queue_shape(g, source, dest, (n - 1) as nat);
        let q = queue_after(g, source, dest, (n - 1) as nat);
        if n - 1 < q.len() {
            let p = q[n - 1];
            let ext = extend_path(g, dest, p);
            if !(p.last().asset_out == dest || p.len() >= MAX_HOPS) {
                lemma_extensions_of(p, outgoing(g, p.last().asset_out));
            }
            let all = q + ext;
            assert forall|k: int| 0 <= k < all.len() implies 1 <= (#[trigger] all[k]).len()
                <= MAX_HOPS by {
                if k < q.len() {
                    assert(all[k] == q[k]);
                } else {
                    assert(all[k] == ext[k - q.len()]);
                }
            }
        }
    } else {
        let q = initial_queue(g, source);
        assert forall|k: int| 0 <= k < q.len() implies 1 <= (#[trigger] q[k]).len() <= MAX_HOPS by {
            assert(q[k] == seq![outgoing(g, source)[k]]);
        }
    }
}

/// The queue only grows at its end: what was queued stays where it was.
pub proof fn lemma_queue_prefix(g: GraphView, source: Seq<char>, dest: Seq<char>, m: nat, n: nat)
    requires
        m <= n,
    ensures
        queue_after(g, source, dest, m).len() <= queue_after(g, source, dest, n).len(),
        forall|k: int|
            0 <= k < queue_after(g, source, dest, m).len() ==> #[trigger] queue_after(
                g,
                source,
                dest,
                n,
            )[k] == queue_after(g, source, dest, m)[k],
    decreases n - m,
{
    if m < n {
        lemma_queue_prefix(g, source, dest, m, (n - 1) as nat);
        let q = queue_after(g, source, dest, (n - 1) as nat);
        if n - 1 < q.len() {
            let all = q + extend_path(g, dest, q[n - 1]);
            assert forall|k: int| 0 <= k < q.len() implies #[trigger] all[k] == q[k] by {}
        }
    }
}

/// The results after `n` steps depend only on the first `n` queued paths.
pub proof fn lemma_collect_prefix(
    q1: Seq<Seq<PoolView>>,
    q2: Seq<Seq<PoolView>>,
    n: nat,
    dest: Seq<char>,
    amount: int,
)
    requires
        n <= q1.len(),
        n <= q2.len(),
        forall|k: int| 0 <= k < n ==> q1[k] == q2[k],
    ensures
        collect(q1, n, dest, amount) == collect(q2, n, dest, amount),
    decreases n,
{
    if n > 0 {
        lemma_collect_prefix(q1, q2, (n - 1) as nat, dest, amount);
        assert(q1[n - 1] == q2[n - 1]);
    }
}

/// Once collecting results has failed, it stays failed with the same error.
pub proof fn lemma_collect_settled(q: Seq<Seq<PoolView>>, m: nat, n: nat, dest: Seq<char>, amount: int)
    requires
        m <= n,
        collect(q, m, dest, amount) is Err,
    ensures
        collect(q, n, dest, amount) == collect(q, m, dest, amount),
    decreases n - m,
{
    if m < n {
        lemma_collect_settled(q, m, (n - 1) as nat, dest, amount);
    }
}

/// The search looks at no fewer paths than it has already looked at, and no more than it
/// has queued.
pub proof fn lemma_search_steps_bound(g: GraphView, source: Seq<char>, dest: Seq<char>, n: nat)
    ensures
        search_steps(g, source, dest, n) >= n,
        search_stops_at(g, source, dest, search_steps(g, source, dest, n)),
        n <= queue_after(g, source, dest, n).len() ==> search_steps(g, source, dest, n)
            <= queue_after(g, source, dest, search_steps(g, source, dest, n)).len(),
        n <= MAX_QUEUE_EXPANSIONS ==> search_steps(g, source, dest, n) <= MAX_QUEUE_EXPANSIONS,
    decreases MAX_QUEUE_EXPANSIONS - n,
{
    if !search_stops_at(g, source, dest, n) {
        lemma_queue_prefix(g, source, dest, n, n + 1);
        lemma_search_steps_bound(g, source, dest, n + 1);
    }
}

/// The pools taking `asset` are pools of the list, and take `asset`.
pub proof fn lemma_pools_with_input(pools: Seq<PoolView>, asset: Seq<char>)
    ensures
        forall|k: int|
            0 <= k < pools_with_input(pools, asset).len() ==> (#[trigger] pools_with_input(
                pools,
                asset,
            )[k]).asset_in == asset && pools.contains(pools_with_input(pools, asset)[k]),
    decreases pools.len(),
{
    if pools.len() > 0 {
        let init = pools.drop_last();
        lemma_pools_with_input(init, asset);
        let rest = pools_with_input(init, asset);
        let all = pools_with_input(pools, asset);
        assert forall|k: int| 0 <= k < all.len() implies (#[trigger] all[k]).asset_in == asset
            && pools.contains(all[k]) by {
            if k < rest.len() {
                assert(all[k] == rest[k]);
                let m = choose|m: int| 0 <= m < init.len() && init[m] == rest[k];
                assert(pools[m] == init[m]);
            } else {
                assert(all[k] == pools[pools.len() - 1]);
            }
        }
    }
}

/// The graph of a list of pools lists each pool under its input asset.
pub proof fn lemma_graph_spec_consistent(pools: Seq<PoolView>)
    ensures
        graph_consistent(graph_spec(pools)),
{
    let g = graph_spec(pools);
    assert forall|a: Seq<char>, k: int|
        g.dom().contains(a) && 0 <= k < g[a].len() implies (#[trigger] g[a][k]).asset_in == a by {
        lemma_pools_with_input(pools, a);
    }
}

/// Extending a graph path by a pool leaving its last asset, toward an asset it does not
/// touch, gives a graph path, while it stays within `MAX_HOPS` pools.
pub proof fn lemma_extend_graph_path(
    g: GraphView,
    source: Seq<char>,
    path: Seq<PoolView>,
    next: PoolView,
)
    requires
        graph_consistent(g),
        is_graph_path(g, source, path),
        path.len() < MAX_HOPS,
        outgoing(g, path.last().asset_out).contains(next),
        !path_touches(path, next.asset_out),
    ensures
        is_graph_path(g, source, path.push(next)),
{
    let ext = path.push(next);
    let n = path.len() as int;
    let j = choose|j: int|
        0 <= j < outgoing(g, path.last().asset_out).len() && outgoing(g, path.last().asset_out)[j]
            == next;
    assert(g.dom().contains(path.last().asset_out));
    assert(g[path.last().asset_out][j].asset_in == path.last().asset_out);
    assert(next.asset_in == path.last().asset_out);
    assert forall|k: int| 0 <= k < ext.len() - 1 implies #[trigger] ext[k].asset_out == ext[k
        + 1].asset_in by {
        if k < n - 1 {
            assert(path[k].asset_out == path[k + 1].asset_in);
        }
    }
    assert forall|k: int| 0 <= k < ext.len() implies outgoing(g, ext[k].asset_in).contains(
        #[trigger] ext[k],
    ) by {
        if k < n {
            assert(ext[k] == path[k]);
        }
    }
    assert forall|k: int| 1 <= k < ext.len() implies !path_touches(
        ext.take(k),
        (#[trigger] ext[k]).asset_out,
    ) by {
        if k < n {
            assert(ext.take(k) =~= path.take(k));
            assert(ext[k] == path[k]);
        } else {
            assert(ext.take(k) =~= path);
        }
    }
}

/// In a consistent graph every queued path is a graph path from the source.
pub proof fn lemma_queue_graph_paths(g: GraphView, source: Seq<char>, dest: Seq<char>, n: nat)
    requires
        graph_consistent(g),
    ensures
        forall|k: int|
            0 <= k < queue_after(g, source, dest, n).len() ==> is_graph_path(
                g,
                source,
                #[trigger] queue_after(g, source, dest, n)[k],
            ),
    decreases n,
{
    if n > 0 {
        lemma_queue_graph_paths(g, source, dest, (n - 1) as nat);
        let q = queue_after(g, source, dest, (n - 1) as nat);
        if n - 1 < q.len() {
            let p = q[n - 1];
            let ext = extend_path(g, dest, p);
            let all = q + ext;
            assert(is_graph_path(g, source, p));
            if !(p.last().asset_out == dest || p.len() >= MAX_HOPS) {
                let next = outgoing(g, p.last().asset_out);
                lemma_extensions_of(p, next);
                assert forall|k: int| 0 <= k < ext.len() implies is_graph_path(
                    g,
                    source,
                    #[trigger] ext[k],
                ) by {
                    let j = choose|j: int|
                        0 <= j < next.len() && #[trigger] extensions_of(p, next)[k] == p.push(next[j])
                            && !path_touches(p, next[j].asset_out);
                    assert(next.contains(next[j]));
                    lemma_extend_graph_path(g, source, p, next[j]);
                }
            }
            assert forall|k: int| 0 <= k < all.len() implies is_graph_path(
                g,
                source,
                #[trigger] all[k],
            ) by {
                if k < q.len() {
                    assert(all[k] == q[k]);
                } else {
                    assert(all[k] == ext[k - q.len()]);
                }
            }
        }
    } else {
        let q = initial_queue(g, source);
        let out = outgoing(g, source);
        assert forall|k: int| 0 <= k < q.len() implies is_graph_path(g, source, #[trigger] q[k]) by {
            let p = q[k];
            assert(p == seq![out[k]]);
            assert(g.dom().contains(source));
            assert(g[source][k].asset_in == source);
            assert(out.contains(out[k]));
            assert(p[0] == out[k]);
        }
    }
}

/// Where a path of score `s` goes in the results: after every path from `i` on whose
/// score is at least `s`, before the first of lower score.
pub proof fn lemma_insert_position(results: Seq<Seq<PoolView>>, s: int, i: nat)
    requires
        i <= results.len(),
    ensures
        i <= insert_position(results, s, i) <= results.len(),
        forall|j: int|
            i <= j < insert_position(results, s, i) ==> s <= score_value(#[trigger] results[j]),
        insert_position(results, s, i) < results.len() ==> s > score_value(
            results[insert_position(results, s, i) as int],
        ),
    decreases results.len() - i,
{
    if i < results.len() && !(s > score_value(results[i as int])) {
        lemma_insert_position(results, s, i + 1);
    }
}

/// Inserting by score keeps a list ordered by score and adds exactly the inserted path.
pub proof fn lemma_insert_sorted(results: Seq<Seq<PoolView>>, path: Seq<PoolView>)
    requires
        sorted_by_score(results),
        score_spec(path) is Ok,
    ensures
        insert_by_score_spec(results, path) is Ok,
        sorted_by_score(insert_by_score_spec(results, path)->Ok_0),
        insert_by_score_spec(results, path)->Ok_0.len() == results.len() + 1,
        forall|i: int|
            0 <= i < insert_by_score_spec(results, path)->Ok_0.len() ==> (#[trigger] insert_by_score_spec(
                results,
                path,
            )->Ok_0[i] == path || results.contains(insert_by_score_spec(results, path)->Ok_0[i])),
{
    let s = score_spec(path)->Ok_0 as int;
    assert(score_value(path) == s);
    lemma_insert_position(results, s, 0);
    let k = insert_position(results, s, 0) as int;
    let all = results.take(k).push(path) + results.skip(k);
    assert(all.len() == results.len() + 1);
    assert forall|i: int| 0 <= i < all.len() implies (#[trigger] all[i] == path || results.contains(
        all[i],
    )) by {
        if i < k {
            assert(all[i] == results[i]);
        } else if i > k {
            assert(all[i] == results[i - 1]);
        }
    }
    assert forall|i: int, j: int| 0 <= i < j < all.len() implies score_value(#[trigger] all[i])
        >= score_value(#[trigger] all[j]) by {
        if j < k {
            assert(all[i] == results[i] && all[j] == results[j]);
        } else if j == k {
            assert(all[i] == results[i]);
        } else if i < k {
            assert(all[i] == results[i] && all[j] == results[j - 1]);
            assert(score_value(results[i]) >= score_value(results[k]));
            assert(s > score_value(results[k]));
        } else if i == k {
            assert(all[j] == results[j - 1]);
            assert(s > score_value(results[k]));
            if j - 1 > k {
                assert(score_value(results[k]) >= score_value(results[j - 1]));
            }
        } else {
            assert(all[i] == results[i - 1] && all[j] == results[j - 1]);
        }
    }
}

/// The results of the search are ordered by score, no more than the paths looked at, and
/// each is a looked-at path that reaches `dest`, along which `amount` can be swapped, and
/// that has a score.
pub proof fn lemma_collect_results(q: Seq<Seq<PoolView>>, n: nat, dest: Seq<char>, amount: int)
    requires
        n <= q.len(),
        collect(q, n, dest, amount) is Ok,
    ensures
        sorted_by_score(collect(q, n, dest, amount)->Ok_0),
        collect(q, n, dest, amount)->Ok_0.len() <= n,
        forall|i: int|
            0 <= i < collect(q, n, dest, amount)->Ok_0.len() ==> exists|k: int|
                0 <= k < n && q[k] == #[trigger] collect(q, n, dest, amount)->Ok_0[i]
                    && q[k].last().asset_out == dest && liquidity_spec(q[k], amount) == Ok::<
                    bool,
                    crate::errors::ContractError,
                >(true) && score_spec(q[k]) is Ok,
    decreases n,
{
    if n > 0 {
        lemma_collect_results(q, (n - 1) as nat, dest, amount);
        let r = collect(q, (n - 1) as nat, dest, amount)->Ok_0;
        let p = q[n - 1];
        let all = collect(q, n, dest, amount)->Ok_0;
        assert(all == consider_path(r, p, dest, amount)->Ok_0);
        if p.last().asset_out == dest && liquidity_spec(p, amount) == Ok::<
            bool,
            crate::errors::ContractError,
        >(true) {
            assert(score_spec(p) is Ok);
            lemma_insert_sorted(r, p);
            assert forall|i: int| 0 <= i < all.len() implies exists|k: int|
                0 <= k < n && q[k] == #[trigger] all[i] && q[k].last().asset_out == dest
                    && liquidity_spec(q[k], amount) == Ok::<bool, crate::errors::ContractError>(
                    true,
                ) && score_spec(q[k]) is Ok by {
                if all[i] == p {
                    assert(q[n - 1] == all[i]);
                } else {
                    let m = choose|m: int| 0 <= m < r.len() && r[m] == all[i];
                    assert(r[m] == all[i]);
                }
            }
        }
    } else {
        assert(sorted_by_score(Seq::<Seq<PoolView>>::empty()));
    }
}

/// Extending a path by a pool of `next` that leads to an asset the path does not touch is
/// among its extensions.
pub proof fn lemma_extensions_contains(path: Seq<PoolView>, next: Seq<PoolView>, x: PoolView)
    requires
        next.contains(x),
        !path_touches(path, x.asset_out),
    ensures
        extensions_of(path, next).contains(path.push(x)),
    decreases next.len(),
{
    let init = next.drop_last();
    let rest = extensions_of(path, init);
    if next.last() == x {
        assert(extensions_of(path, next) == rest.push(path.push(x)));
        assert(extensions_of(path, next)[rest.len() as int] == path.push(x));
    } else {
        let j = choose|j: int| 0 <= j < next.len() && next[j] == x;
        assert(j < next.len() - 1);
        assert(init[j] == x);
        lemma_extensions_contains(path, init, x);
        let m = choose|m: int| 0 <= m < rest.len() && rest[m] == path.push(x);
        if !path_touches(path, next.last().asset_out) {
            assert(extensions_of(path, next)[m] == path.push(x));
        } else {
            assert(extensions_of(path, next)[m] == path.push(x));
        }
    }
}

/// The search does not stop at any step before the one where it stops.
pub proof fn lemma_search_runs_until(g: GraphView, source: Seq<char>, dest: Seq<char>, n: nat, m: nat)
    requires
        n <= m < search_steps(g, source, dest, n),
    ensures
        !search_stops_at(g, source, dest, m),
    decreases m - n,
{
    if n < m {
        lemma_search_runs_until(g, source, dest, n + 1, m);
    }
}

/// Where the search runs out of queued paths within its budget, every prefix of a graph
/// path from the source that passes through the destination only at its end is queued.
pub proof fn lemma_prefixes_queued(
    g: GraphView,
    source: Seq<char>,
    dest: Seq<char>,
    path: Seq<PoolView>,
    j: int,
)
    requires
        graph_consistent(g),
        search_steps(g, source, dest, 0) < MAX_QUEUE_EXPANSIONS,
        is_graph_path(g, source, path),
        forall|k: int| 0 <= k < path.len() - 1 ==> #[trigger] path[k].asset_out != dest,
        1 <= j <= path.len(),
    ensures
        queue_after(g, source, dest, search_steps(g, source, dest, 0)).contains(path.take(j)),
    decreases j,
{
    let total = search_steps(g, source, dest, 0);
    let qt = queue_after(g, source, dest, total);
    lemma_queue_prefix(g, source, dest, 0, total);
    if j == 1 {
        let out = outgoing(g, source);
        assert(out.contains(path[0]));
        let i = choose|i: int| 0 <= i < out.len() && out[i] == path[0];
        let q0 = initial_queue(g, source);
        assert(q0[i] == seq![out[i]]);
        assert(path.take(1) =~= seq![path[0]]);
        assert(qt[i] == q0[i]);
    } else {
        lemma_prefixes_queued(g, source, dest, path, j - 1);
        let prefix = path.take(j - 1);
        let k = choose|k: int| 0 <= k < qt.len() && qt[k] == prefix;
        lemma_search_steps_bound(g, source, dest, 0);
        assert(k < total);
        lemma_search_runs_until(g, source, dest, 0, k as nat);
        let qk = queue_after(g, source, dest, k as nat);
        assert(k < qk.len());
        lemma_queue_prefix(g, source, dest, k as nat, total);
        assert(qk[k] == prefix);
        lemma_queue_prefix(g, source, dest, (k + 1) as nat, total);
        let qk1 = queue_after(g, source, dest, (k + 1) as nat);
        let last = path[j - 2];
        assert(prefix.last() == last);
        assert(last.asset_out != dest);
        assert(path[j - 2].asset_out == path[j - 1].asset_in);
        let next = outgoing(g, last.asset_out);
        assert(next.contains(path[j - 1]));
        assert(!path_touches(path.take(j - 1), path[j - 1].asset_out));
        lemma_extensions_contains(prefix, next, path[j - 1]);
        assert(prefix.push(path[j - 1]) =~= path.take(j));
        let ext = extend_path(g, dest, prefix);
        assert(ext == extensions_of(prefix, next));
        let e = choose|e: int| 0 <= e < ext.len() && ext[e] == path.take(j);
        assert(qk1 == qk + ext);
        assert(qk1[qk.len() + e] == path.take(j));
        assert(qt[qk.len() + e] == path.take(j));
    }
}

/// Inserting a path by score keeps every path that was there and adds the new one.
pub proof fn lemma_insert_keeps(results: Seq<Seq<PoolView>>, path: Seq<PoolView>, x: Seq<PoolView>)
    requires
        score_spec(path) is Ok,
        x == path || results.contains(x),
    ensures
        insert_by_score_spec(results, path)->Ok_0.contains(x),
{
    let s = score_spec(path)->Ok_0 as int;
    lemma_insert_position(results, s, 0);
    let k = insert_position(results, s, 0) as int;
    let all = results.take(k).push(path) + results.skip(k);
    if x == path {
        assert(all[k] == path);
    } else {
        let m = choose|m: int| 0 <= m < results.len() && results[m] == x;
        if m < k {
            assert(all[m] == x);
        } else {
            assert(all[m + 1] == x);
        }
    }
}

/// The results of the search keep every looked-at path that reaches the destination and
/// along which the amount can be swapped.
pub proof fn lemma_collect_contains(
    q: Seq<Seq<PoolView>>,
    n: nat,
    dest: Seq<char>,
    amount: int,
    k: int,
)
    requires
        n <= q.len(),
        collect(q, n, dest, amount) is Ok,
        0 <= k < n,
        q[k].last().asset_out == dest,
        liquidity_spec(q[k], amount) == Ok::<bool, crate::errors::ContractError>(true),
    ensures
        collect(q, n, dest, amount)->Ok_0.contains(q[k]),
    decreases n,
{
    let r = collect(q, (n - 1) as nat, dest, amount)->Ok_0;
    let p = q[n - 1];
    if k < n - 1 {
        lemma_collect_contains(q, (n - 1) as nat, dest, amount, k);
    }
    if p.last().asset_out == dest && liquidity_spec(p, amount) == Ok::<
        bool,
        crate::errors::ContractError,
    >(true) {
        lemma_insert_keeps(r, p, q[k]);
    }
}


/// Swapping along a path never fails for want of a route.
pub proof fn lemma_liquidity_walk_error(path: Seq<PoolView>, amount: int, n: nat)
    requires
        liquidity_walk(path, amount, n) is Err,
    ensures
        liquidity_walk(path, amount, n)->Err_0 != ContractError::RouteNotFound,
    decreases n,
{
    if n > 0 {
        if liquidity_walk(path, amount, (n - 1) as nat) is Err {
            lemma_liquidity_walk_error(path, amount, (n - 1) as nat);
        }
    }
}

/// Looking at queued paths never fails for want of a route: that error comes only from a
/// search that found nothing.
pub proof fn lemma_collect_error(q: Seq<Seq<PoolView>>, n: nat, dest: Seq<char>, amount: int)
    requires
        collect(q, n, dest, amount) is Err,
    ensures
        collect(q, n, dest, amount)->Err_0 != ContractError::RouteNotFound,
    decreases n,
{
    if n > 0 {
        if collect(q, (n - 1) as nat, dest, amount) is Err {
            lemma_collect_error(q, (n - 1) as nat, dest, amount);
        } else {
            let p = q[n - 1];
            if liquidity_spec(p, amount) is Err {
                lemma_liquidity_walk_error(p, amount, p.len());
            }
        }
    }
}

} // verus!
