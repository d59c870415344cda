//! The best conversion rate between every ordered pair of nodes, by a
//! Floyd-Warshall search in which factors compose by multiplication, and
//! the paths that reach those rates.
use crate::graph::ExchangeCompleteGraph;
use crate::handler::GraphHandler;
use crate::parse::ExchangeRequest;
use crate::registry::{lemma_index_of_unique, RegistryKey};
use vstd::prelude::*;

verus! {

/// The rate of a pair that no path joins: the binary64 bit pattern of +0.
pub const ZERO_FACTOR: u64 = 0;

/// `f` accepts every pair of arguments and gives one result for each.
pub open spec fn deterministic<A, B, R, F: Fn(A, B) -> R>(f: F) -> bool {
    &&& forall|a: A, b: B| #[trigger] call_requires(f, (a, b))
    &&& forall|a: A, b: B, r1: R, r2: R|
        #![trigger call_ensures(f, (a, b), r1), call_ensures(f, (a, b), r2)]
        call_ensures(f, (a, b), r1) && call_ensures(f, (a, b), r2) ==> r1 == r2
}

/// What `f(a, b)` returns.
pub open spec fn result_of<A, B, R, F: Fn(A, B) -> R>(f: F, a: A, b: B) -> R {
    choose|r: R| call_ensures(f, (a, b), r)
}

proof fn lemma_result_of<A, B, R, F: Fn(A, B) -> R>(f: F, a: A, b: B, r: R)
    requires
        deterministic(f),
        call_ensures(f, (a, b), r),
    ensures
        result_of(f, a, b) == r,
{
    let c = result_of(f, a, b);
    assert(call_ensures(f, (a, b), c));
}

/// Rates and first hops for every ordered pair of nodes, as plain values.
pub struct Tables {
    pub rate: Seq<Seq<u64>>,
    pub next: Seq<Seq<Option<usize>>>,
}

/// Both tables are `n` by `n` and every first hop names a node.
pub open spec fn tables_shaped(t: Tables, n: nat) -> bool {
    &&& t.rate.len() == n
    &&& t.next.len() == n
    &&& forall|i: int| 0 <= i < n ==> #[trigger] t.rate[i].len() == n
    &&& forall|i: int| 0 <= i < n ==> #[trigger] t.next[i].len() == n
    &&& forall|i: int, j: int|
        0 <= i < n && 0 <= j < n ==> (#[trigger] t.next[i][j] matches Some(h) ==> h < n)
}

/// The tables before the search: a direct edge gives its weight and is its
/// own first hop; every other pair has the zero rate and no hop.
pub open spec fn initial_tables(n: nat, edges: Map<(usize, usize), u64>) -> Tables {
    Tables {
        rate: Seq::new(
            n,
            |i: int|
                Seq::new(
                    n,
                    |j: int|
                        if edges.contains_key((i as usize, j as usize)) {
                            edges[(i as usize, j as usize)]
                        } else {
                            ZERO_FACTOR
                        },
                ),
        ),
        next: Seq::new(
            n,
            |i: int|
                Seq::new(
                    n,
                    |j: int|
                        if edges.contains_key((i as usize, j as usize)) {
                            Some(j as usize)
                        } else {
                            None
                        },
                ),
        ),
    }
}

/// One relaxation: when going from `i` to `j` through `k` outranks the rate
/// of (i, j), that product becomes the rate and the first hop toward `k`
/// becomes the first hop toward `j`.
pub open spec fn relax<M: Fn(u64, u64) -> u64, B: Fn(u64, u64) -> bool>(
    combine: M,
    prefer: B,
    t: Tables,
    k: int,
    i: int,
    j: int,
) -> Tables {
    let p = result_of(combine, t.rate[i][k], t.rate[k][j]);
    if result_of(prefer, p, t.rate[i][j]) {
        Tables {
            rate: t.rate.update(i, t.rate[i].update(j, p)),
            next: t.next.update(i, t.next[i].update(j, t.next[i][k])),
        }
    } else {
        t
    }
}

/// The relaxations through `k` of the pairs (i, 0) .. (i, j - 1), in order.
pub open spec fn relax_row<M: Fn(u64, u64) -> u64, B: Fn(u64, u64) -> bool>(
    combine: M,
    prefer: B,
    t: Tables,
    k: int,
    i: int,
    j: nat,
) -> Tables
    decreases j,
{
    if j == 0 {
        t
    } else {
        relax(combine, prefer, relax_row(combine, prefer, t, k, i, (j - 1) as nat), k, i, j - 1)
    }
}

/// The relaxations through `k` of rows 0 .. i - 1, in order.
pub open spec fn relax_round<M: Fn(u64, u64) -> u64, B: Fn(u64, u64) -> bool>(
    combine: M,
    prefer: B,
    t: Tables,
    n: nat,
    k: int,
    i: nat,
) -> Tables
    decreases i,
{
    if i == 0 {
        t
    } else {
        relax_row(combine, prefer, relax_round(combine, prefer, t, n, k, (i - 1) as nat), k, i - 1, n)
    }
}

/// The rounds through nodes 0 .. k - 1, in order.
pub open spec fn relax_all<M: Fn(u64, u64) -> u64, B: Fn(u64, u64) -> bool>(
    combine: M,
    prefer: B,
    t: Tables,
    n: nat,
    k: nat,
) -> Tables
    decreases k,
{
    if k == 0 {
        t
    } else {
        relax_round(combine, prefer, relax_all(combine, prefer, t, n, (k - 1) as nat), n, k - 1, n)
    }
}

/// The tables that the search gives for `n` nodes and these edges.
pub open spec fn best_tables<M: Fn(u64, u64) -> u64, B: Fn(u64, u64) -> bool>(
    n: nat,
    edges: Map<(usize, usize), u64>,
    combine: M,
    prefer: B,
) -> Tables {
    relax_all(combine, prefer, initial_tables(n, edges), n, n)
}

/// Best rate and first hop for every ordered pair of nodes; `rate[i][j]` is
/// a factor's bit pattern, `next[i][j]` the node to go to first from `i`
/// toward `j`, if any path was found.
#[derive(Debug)]
pub struct RateTable {
    pub rate: Vec<Vec<u64>>,
    pub next: Vec<Vec<Option<usize>>>,
}

impl View for RateTable {
    type V = Tables;

    open spec fn view(&self) -> Tables {
        Tables {
            rate: self.rate@.map_values(|row: Vec<u64>| row@),
            next: self.next@.map_values(|row: Vec<Option<usize>>| row@),
        }
    }
}

impl RateTable {
    /// The number of nodes that the table covers.
    pub open spec fn size(&self) -> nat {
        self.next@.len()
    }

    pub open spec fn wf(&self) -> bool {
        tables_shaped(self@, self.size())
    }
}

/// Why `path` has no answer.
#[derive(Debug, Clone, Copy, PartialEq, Eq, Structural)]
pub enum PathError {
    /// A node id that the table does not cover.
    UnknownNode,
    /// The first hops from the source never reach the destination.
    Unterminated,
}

/// `q` follows first hops toward `to` from `from`: it starts at `from` and
/// each element before the last is not `to` and has the next element as
/// its first hop toward `to`.
pub open spec fn is_walk(next: Seq<Seq<Option<usize>>>, from: usize, to: usize, q: Seq<usize>) -> bool {
    &&& q.len() >= 1
    &&& q[0] == from
    &&& forall|t: int|
        #![trigger q[t]]
        0 <= t < q.len() - 1 ==> q[t] != to && next[q[t] as int][to as int] == Some(q[t + 1])
}

/// `p` is the whole walk from `from` to `to`: it follows first hops and
/// ends at `to`.
pub open spec fn is_hop_chain(next: Seq<Seq<Option<usize>>>, from: usize, to: usize, p: Seq<usize>) -> bool {
    &&& is_walk(next, from, to, p)
    &&& p[p.len() - 1] == to
}

/// Two walks from one node toward one destination agree where both are
/// defined.
proof fn lemma_walks_agree(
    next: Seq<Seq<Option<usize>>>,
    from: usize,
    to: usize,
    p: Seq<usize>,
    q: Seq<usize>,
    t: int,
)
    requires
        is_walk(next, from, to, p),
        is_walk(next, from, to, q),
        0 <= t < p.len(),
        t < q.len(),
    ensures
        p[t] == q[t],
    decreases t,
{
    if t > 0 {
        lemma_walks_agree(next, from, to, p, q, t - 1);
        assert(p[t - 1] == q[t - 1]);
    }
}

/// A walk that comes back to a node repeats itself from there on.
proof fn lemma_walk_repeats(
    next: Seq<Seq<Option<usize>>>,
    from: usize,
    to: usize,
    p: Seq<usize>,
    a: int,
    b: int,
    m: int,
)
    requires
        is_walk(next, from, to, p),
        0 <= a < b,
        0 <= m,
        b + m < p.len(),
        p[a] == p[b],
    ensures
        p[a + m] == p[b + m],
    decreases m,
{
    if m > 0 {
        lemma_walk_repeats(next, from, to, p, a, b, m - 1);
        assert(p[a + m - 1] == p[b + m - 1]);
    }
}

/// A hop chain meets no node twice.
proof fn lemma_chain_distinct(next: Seq<Seq<Option<usize>>>, from: usize, to: usize, p: Seq<usize>)
    requires
        is_hop_chain(next, from, to, p),
    ensures
        p.no_duplicates(),
{
    let last = p.len() - 1;
    assert forall|a: int, b: int| 0 <= a < b < p.len() implies p[a] != p[b] by {
        if p[a] == p[b] {
            if b == last {
                assert(p[a] != to);
            } else {
                lemma_walk_repeats(next, from, to, p, a, b, last - b);
                assert(p[a + last - b] != to);
            }
        }
    }
}

/// Distinct ids below `n` are at most `n` in number.
proof fn lemma_distinct_below(s: Seq<usize>, n: nat)
    requires
        s.no_duplicates(),
        forall|t: int| 0 <= t < s.len() ==> #[trigger] s[t] < n,
    ensures
        s.len() <= n,
{
    let ints = s.map_values(|x: usize| x as int);
    assert forall|a: int, b: int| 0 <= a < b < ints.len() implies ints[a] != ints[b] by {
        assert(s[a] != s[b]);
    }
    assert(ints.no_duplicates());
    ints.unique_seq_to_set();
    let range = vstd::set_lib::set_int_range(0, n as int);
    vstd::set_lib::lemma_int_range(0, n as int);
    assert forall|x: int| ints.to_set().contains(x) implies range.contains(x) by {
        let t = choose|t: int| 0 <= t < ints.len() && ints[t] == x;
        assert(s[t] < n);
    }
    vstd::set_lib::lemma_len_subset(ints.to_set(), range);
}

/// First hops of an `n` by `n` table lead from a node below `n` only to
/// nodes below `n`.
proof fn lemma_walk_in_range(next: Seq<Seq<Option<usize>>>, n: nat, from: usize, to: usize, p: Seq<usize>, t: int)
    requires
        next.len() == n,
        forall|i: int| 0 <= i < n ==> #[trigger] next[i].len() == n,
        forall|i: int, j: int| 0 <= i < n && 0 <= j < n ==> (#[trigger] next[i][j] matches Some(h) ==> h < n),
        from < n,
        to < n,
        is_walk(next, from, to, p),
        0 <= t < p.len(),
    ensures
        p[t] < n,
    decreases t,
{
    if t > 0 {
        lemma_walk_in_range(next, n, from, to, p, t - 1);
        assert(next[p[t - 1] as int][to as int] == Some(p[t]));
    }
}

/// No hop chain exists when a walk has met `n` nodes without reaching its
/// destination.
proof fn lemma_no_chain_after_long_walk(
    next: Seq<Seq<Option<usize>>>,
    n: nat,
    from: usize,
    to: usize,
    walked: Seq<usize>,
)
    requires
        next.len() == n,
        forall|i: int| 0 <= i < n ==> #[trigger] next[i].len() == n,
        forall|i: int, j: int| 0 <= i < n && 0 <= j < n ==> (#[trigger] next[i][j] matches Some(h) ==> h < n),
        from < n,
        to < n,
        is_walk(next, from, to, walked),
        walked[walked.len() - 1] != to,
        walked.len() >= n,
    ensures
        forall|p: Seq<usize>| !is_hop_chain(next, from, to, p),
{
    assert forall|p: Seq<usize>| !is_hop_chain(next, from, to, p) by {
        if is_hop_chain(next, from, to, p) {
            if p.len() <= walked.len() {
                lemma_walks_agree(next, from, to, p, walked, p.len() - 1);
                if p.len() < walked.len() {
                    assert(walked[p.len() - 1] != to);
                }
            } else {
                assert forall|t: int| 0 <= t < p.len() implies #[trigger] p[t] < n by {
                    lemma_walk_in_range(next, n, from, to, p, t);
                }
                lemma_chain_distinct(next, from, to, p);
                lemma_distinct_below(p, n);
            }
        }
    }
}

/// No hop chain exists when a walk stops short of its destination at a
/// node with no first hop toward it.
proof fn lemma_no_chain_when_stuck(next: Seq<Seq<Option<usize>>>, from: usize, to: usize, walked: Seq<usize>)
    requires
        is_walk(next, from, to, walked),
        walked[walked.len() - 1] != to,
        next[walked[walked.len() - 1] as int][to as int] is None,
    ensures
        forall|p: Seq<usize>| !is_hop_chain(next, from, to, p),
{
    assert forall|p: Seq<usize>| !is_hop_chain(next, from, to, p) by {
        if is_hop_chain(next, from, to, p) {
            let last = walked.len() - 1;
            if p.len() <= walked.len() {
                lemma_walks_agree(next, from, to, p, walked, p.len() - 1);
                if p.len() < walked.len() {
                    assert(walked[p.len() - 1] != to);
                }
            } else {
                lemma_walks_agree(next, from, to, p, walked, last);
                assert(next[p[last] as int][to as int] == Some(p[last + 1]));
            }
        }
    }
}

/// There is at most one hop chain from a node to another: the path that
/// `path` returns is the only one.
pub proof fn lemma_hop_chain_unique(
    next: Seq<Seq<Option<usize>>>,
    from: usize,
    to: usize,
    first: Seq<usize>,
    second: Seq<usize>,
)
    requires
        is_hop_chain(next, from, to, first),
        is_hop_chain(next, from, to, second),
    ensures
        first == second,
{
    if first.len() < second.len() {
        lemma_walks_agree(next, from, to, first, second, first.len() - 1);
        assert(second[first.len() - 1] != to);
    } else if second.len() < first.len() {
        lemma_walks_agree(next, from, to, second, first, second.len() - 1);
        assert(first[second.len() - 1] != to);
    }
    assert forall|t: int| 0 <= t < first.len() implies first[t] == second[t] by {
        lemma_walks_agree(next, from, to, first, second, t);
    }
    assert(first =~= second);
}

/// Every first hop in the tables is a direct edge out of its node.
pub open spec fn hops_are_edges(t: Tables, edges: Map<(usize, usize), u64>, n: nat) -> bool {
    forall|i: int, j: int|
        0 <= i < n && 0 <= j < n ==> (#[trigger] t.next[i][j] matches Some(h) ==> edges.contains_key(
            (i as usize, h),
        ))
}

proof fn lemma_relax_keeps<M: Fn(u64, u64) -> u64, B: Fn(u64, u64) -> bool>(
    combine: M,
    prefer: B,
    t: Tables,
    edges: Map<(usize, usize), u64>,
    n: nat,
    k: int,
    i: int,
    j: int,
)
    requires
        tables_shaped(t, n),
        hops_are_edges(t, edges, n),
        0 <= k < n,
        0 <= i < n,
        0 <= j < n,
    ensures
        tables_shaped(relax(combine, prefer, t, k, i, j), n),
        hops_are_edges(relax(combine, prefer, t, k, i, j), edges, n),
{
    let r = relax(combine, prefer, t, k, i, j);
    assert forall|a: int, b: int| 0 <= a < n && 0 <= b < n implies (#[trigger] r.next[a][b] matches Some(
        h,
    ) ==> h < n && edges.contains_key((a as usize, h))) by {
        if a == i && b == j {
            assert(t.next[i][k] matches Some(h) ==> h < n && edges.contains_key((i as usize, h)));
        } else {
            assert(r.next[a][b] == t.next[a][b]);
        }
    }
    assert forall|a: int| 0 <= a < n implies #[trigger] r.rate[a].len() == n by {
        assert(t.rate[a].len() == n);
    }
    assert forall|a: int| 0 <= a < n implies #[trigger] r.next[a].len() == n by {
        assert(t.next[a].len() == n);
    }
}

proof fn lemma_relax_row_keeps<M: Fn(u64, u64) -> u64, B: Fn(u64, u64) -> bool>(
    combine: M,
    prefer: B,
    t: Tables,
    edges: Map<(usize, usize), u64>,
    n: nat,
    k: int,
    i: int,
    j: nat,
)
    requires
        tables_shaped(t, n),
        hops_are_edges(t, edges, n),
        0 <= k < n,
        0 <= i < n,
        j <= n,
    ensures
        tables_shaped(relax_row(combine, prefer, t, k, i, j), n),
        hops_are_edges(relax_row(combine, prefer, t, k, i, j), edges, n),
    decreases j,
{
    if j > 0 {
        lemma_relax_row_keeps(combine, prefer, t, edges, n, k, i, (j - 1) as nat);
        lemma_relax_keeps(
            combine,
            prefer,
            relax_row(combine, prefer, t, k, i, (j - 1) as nat),
            edges,
            n,
            k,
            i,
            j - 1,
        );
    }
}

proof fn lemma_relax_round_keeps<M: Fn(u64, u64) -> u64, B: Fn(u64, u64) -> bool>(
    combine: M,
    prefer: B,
    t: Tables,
    edges: Map<(usize, usize), u64>,
    n: nat,
    k: int,
    i: nat,
)
    requires
        tables_shaped(t, n),
        hops_are_edges(t, edges, n),
        0 <= k < n,
        i <= n,
    ensures
        tables_shaped(relax_round(combine, prefer, t, n, k, i), n),
        hops_are_edges(relax_round(combine, prefer, t, n, k, i), edges, n),
    decreases i,
{
    if i > 0 {
        lemma_relax_round_keeps(combine, prefer, t, edges, n, k, (i - 1) as nat);
        lemma_relax_row_keeps(
            combine,
            prefer,
            relax_round(combine, prefer, t, n, k, (i - 1) as nat),
            edges,
            n,
            k,
            i - 1,
            n,
        );
    }
}

proof fn lemma_relax_all_keeps<M: Fn(u64, u64) -> u64, B: Fn(u64, u64) -> bool>(
    combine: M,
    prefer: B,
    t: Tables,
    edges: Map<(usize, usize), u64>,
    n: nat,
    k: nat,
)
    requires
        tables_shaped(t, n),
        hops_are_edges(t, edges, n),
        k <= n,
    ensures
        tables_shaped(relax_all(combine, prefer, t, n, k), n),
        hops_are_edges(relax_all(combine, prefer, t, n, k), edges, n),
    decreases k,
{
    if k > 0 {
        lemma_relax_all_keeps(combine, prefer, t, edges, n, (k - 1) as nat);
        lemma_relax_round_keeps(combine, prefer, relax_all(combine, prefer, t, n, (k - 1) as nat), edges, n, k - 1, n);
    }
}

/// The search's first hops are direct edges of the graph, and its tables
/// are `n` by `n`.
pub proof fn lemma_best_hops_are_edges<M: Fn(u64, u64) -> u64, B: Fn(u64, u64) -> bool>(
    n: nat,
    edges: Map<(usize, usize), u64>,
    combine: M,
    prefer: B,
)
    requires
        n <= usize::MAX,
    ensures
        tables_shaped(best_tables(n, edges, combine, prefer), n),
        hops_are_edges(best_tables(n, edges, combine, prefer), edges, n),
{
    let init = initial_tables(n, edges);
    assert(tables_shaped(init, n));
    assert(hops_are_edges(init, edges, n));
    lemma_relax_all_keeps(combine, prefer, init, edges, n, n);
}

/// A path read from the search's tables goes from its source to its
/// destination along edges of the graph, one edge per step.
pub proof fn lemma_path_follows_edges<M: Fn(u64, u64) -> u64, B: Fn(u64, u64) -> bool>(
    n: nat,
    edges: Map<(usize, usize), u64>,
    combine: M,
    prefer: B,
    from: usize,
    to: usize,
    p: Seq<usize>,
)
    requires
        n <= usize::MAX,
        from < n,
        to < n,
        is_hop_chain(best_tables(n, edges, combine, prefer).next, from, to, p),
    ensures
        p[0] == from,
        p[p.len() - 1] == to,
        forall|t: int| 0 <= t < p.len() - 1 ==> edges.contains_key((#[trigger] p[t], p[t + 1])),
{
    let next = best_tables(n, edges, combine, prefer).next;
    lemma_best_hops_are_edges(n, edges, combine, prefer);
    assert forall|t: int| 0 <= t < p.len() - 1 implies edges.contains_key((#[trigger] p[t], p[t + 1])) by {
        lemma_walk_in_range(next, n, from, to, p, t);
        assert(next[p[t] as int][to as int] == Some(p[t + 1]));
    }
}

/// The answer to a request: the best rate found, as a factor's bit
/// pattern, and the nodes of its path as (venue, currency) pairs, both ends
/// included.
#[derive(Debug)]
pub struct BestRate {
    pub rate: u64,
    pub path: Vec<(String, String)>,
}

/// Computes the best rates and first hops of all pairs of nodes.
pub struct Exchanger {}

impl Exchanger {
    fn new_init_rates_next(graph: &ExchangeCompleteGraph) -> (r: RateTable)
        requires
            graph.wf(),
        ensures
            r.size() == graph@.keys.len(),
            r.wf(),
            r@ == initial_tables(graph@.keys.len(), graph@.edges),
    {
        let ghost init = initial_tables(graph@.keys.len(), graph@.edges);
        let n = graph.index_map.len();
        let mut rate: Vec<Vec<u64>> = Vec::new();
        let mut next: Vec<Vec<Option<usize>>> = Vec::new();
        let mut i: usize = 0;
        while i < n
            invariant
                n == graph@.keys.len(),
                init == initial_tables(n as nat, graph@.edges),
                i <= n,
                rate@.len() == i,
                next@.len() == i,
                forall|a: int| 0 <= a < i ==> #[trigger] rate@[a]@ == init.rate[a],
                forall|a: int| 0 <= a < i ==> #[trigger] next@[a]@ == init.next[a],
            decreases n - i,
        {
            let mut rate_row: Vec<u64> = Vec::new();
            let mut next_row: Vec<Option<usize>> = Vec::new();
            let mut j: usize = 0;
            while j < n
                invariant
                    n == graph@.keys.len(),
                    init == initial_tables(n as nat, graph@.edges),
                    i < n,
                    j <= n,
                    rate_row@ == init.rate[i as int].take(j as int),
                    next_row@ == init.next[i as int].take(j as int),
                decreases n - j,
            {
                match graph.edge_weight(i, j) {
                    Some(weight) => {
                        rate_row.push(weight);
                        next_row.push(Some(j));
                    },
                    None => {
                        rate_row.push(ZERO_FACTOR);
                        next_row.push(None);
                    },
                }
                assert(rate_row@ =~= init.rate[i as int].take(j + 1));
                assert(next_row@ =~= init.next[i as int].take(j + 1));
                j += 1;
            }
            assert(rate_row@ =~= init.rate[i as int]);
            assert(next_row@ =~= init.next[i as int]);
            rate.push(rate_row);
            next.push(next_row);
            i += 1;
        }
        let r = RateTable { rate, next };
        assert(r@.rate =~= init.rate);
        assert(r@.next =~= init.next);
        r
    }

    /// The best rate and first hop of every ordered pair of known nodes.
    /// `combine` gives the factor of two conversions in a row and
    /// `prefer(a, b)` says whether rate `a` is strictly better than rate `b`
    /// (on binary64 values: the product, and `>`). Intermediate nodes are
    /// taken in id order, then sources, then destinations; a tie keeps the
    /// path found first. A pair (i, i) starts with no path, so it gets one
    /// only through a cycle.
    pub fn best_rates<M: Fn(u64, u64) -> u64, B: Fn(u64, u64) -> bool>(
        graph_handler: &GraphHandler,
        combine: M,
        prefer: B,
    ) -> (r: RateTable)
        requires
            graph_handler.wf(),
            deterministic(combine),
            deterministic(prefer),
        ensures
            r.wf(),
            r.size() == graph_handler@.graph.keys.len(),
            r@ == best_tables(graph_handler@.graph.keys.len(), graph_handler@.graph.edges, combine, prefer),
    {
        let graph = graph_handler.graph();
        let n = graph.index_map.len();
        let mut table = Self::new_init_rates_next(graph);
        let ghost init = table@;
        let mut k: usize = 0;
        while k < n
            invariant
                table.wf(),
                table.size() == n,
                init == initial_tables(n as nat, graph_handler@.graph.edges),
                deterministic(combine),
                deterministic(prefer),
                k <= n,
                table@ == relax_all(combine, prefer, init, n as nat, k as nat),
            decreases n - k,
        {
            let ghost round_start = table@;
            let mut i: usize = 0;
            while i < n
                invariant
                    table.wf(),
                    table.size() == n,
                    deterministic(combine),
                    deterministic(prefer),
                    k < n,
                    i <= n,
                    table@ == relax_round(combine, prefer, round_start, n as nat, k as int, i as nat),
                decreases n - i,
            {
                let ghost row_start = table@;
                let mut j: usize = 0;
                while j < n
                    invariant
                        table.wf(),
                        table.size() == n,
                        deterministic(combine),
                        deterministic(prefer),
                        k < n,
                        i < n,
                        j <= n,
                        table@ == relax_row(combine, prefer, row_start, k as int, i as int, j as nat),
                    decreases n - j,
                {
                    Self::relax_pair(&mut table, k, i, j, &combine, &prefer);
                    j += 1;
                }
                i += 1;
            }
            k += 1;
        }
        table
    }

    /// The nodes from `from_node` to `to_node` by the table's first hops,
    /// both ends included; `Ok(None)` when the table has no first hop for the
    /// pair (for a pair (i, i), unless the search found a cycle through i).
    pub fn path(from_node: usize, to_node: usize, next: &RateTable) -> (r: Result<Option<Vec<usize>>, PathError>)
        requires
            next.wf(),
        ensures
            (r matches Err(PathError::UnknownNode)) <==> (from_node >= next.size() || to_node >= next.size()),
            from_node < next.size() && to_node < next.size() ==> ((r matches Ok(None))
                <==> next@.next[from_node as int][to_node as int] is None),
            r matches Ok(Some(p)) ==> is_hop_chain(next@.next, from_node, to_node, p@),
            (r matches Err(PathError::Unterminated)) ==> forall|p: Seq<usize>|
                !is_hop_chain(next@.next, from_node, to_node, p),
    {
        let n = next.next.len();
        if from_node >= n || to_node >= n {
            return Err(PathError::UnknownNode);
        }
        assert(next.next@[from_node as int]@ == next@.next[from_node as int]);
        if next.next[from_node][to_node].is_none() {
            return Ok(None);
        }
        let ghost hops = next@.next;
        let mut path: Vec<usize> = vec![from_node];
        let mut source_node = from_node;
        let dest_node = to_node;
        while source_node != dest_node
            invariant
                next.wf(),
                n == next.size(),
                hops == next@.next,
                from_node < n,
                dest_node == to_node,
                hops[from_node as int][to_node as int] is Some,
                dest_node < n,
                source_node < n,
                is_walk(hops, from_node, dest_node, path@),
                path@[path@.len() - 1] == source_node,
                path@.len() <= n,
                forall|t: int| 0 <= t < path@.len() ==> #[trigger] path@[t] < n,
            decreases n - path@.len(),
        {
            let ghost walked = path@;
            if path.len() >= n {
                proof {
                    lemma_no_chain_after_long_walk(hops, n as nat, from_node, dest_node, walked);
                }
                return Err(PathError::Unterminated);
            }
            assert(next.next@[source_node as int]@ == hops[source_node as int]);
            match next.next[source_node][dest_node] {
                None => {
                    proof {
                        lemma_no_chain_when_stuck(hops, from_node, dest_node, walked);
                    }
                    return Err(PathError::Unterminated);
                },
                Some(hop) => {
                    path.push(hop);
                    source_node = hop;
                    proof {
                        assert forall|t: int| 0 <= t < path@.len() - 1 implies #[trigger] path@[t] != dest_node
                            && hops[path@[t] as int][dest_node as int] == Some(path@[t + 1]) by {
                            if t < walked.len() - 1 {
                                assert(walked[t] == path@[t] && walked[t + 1] == path@[t + 1]);
                            }
                        }
                    }
                },
            }
        }
        Ok(Some(path))
    }

    /// Answers a request: finds its two nodes, runs the search, and reads
    /// the rate and the path of the pair, with each node as its (venue,
    /// currency) key.
    pub fn best_rate<M: Fn(u64, u64) -> u64, B: Fn(u64, u64) -> bool>(
        graph_handler: &GraphHandler,
        request: &ExchangeRequest,
        combine: M,
        prefer: B,
    ) -> (r: Result<Option<BestRate>, PathError>)
        requires
            graph_handler.wf(),
            deterministic(combine),
            deterministic(prefer),
        ensures
            ({
                let keys = graph_handler@.graph.keys;
                let source = (request.source_exchange@, request.source_currency@);
                let destination = (request.destination_exchange@, request.destination_currency@);
                let i = keys.index_of(source);
                let j = keys.index_of(destination);
                let t = best_tables(keys.len(), graph_handler@.graph.edges, combine, prefer);
                &&& (r matches Err(PathError::UnknownNode)) <==> !(keys.contains(source) && keys.contains(
                    destination,
                ))
                &&& keys.contains(source) && keys.contains(destination) ==> {
                    &&& (r matches Ok(None)) <==> t.next[i][j] is None
                    &&& (r matches Err(PathError::Unterminated)) ==> forall|p: Seq<usize>|
                        !#[trigger] is_hop_chain(t.next, i as usize, j as usize, p)
                    &&& r matches Ok(Some(best)) ==> {
                        &&& best.rate == t.rate[i][j]
                        &&& exists|p: Seq<usize>|
                            #![trigger is_hop_chain(t.next, i as usize, j as usize, p)]
                            is_hop_chain(t.next, i as usize, j as usize, p) && best.path@.len() == p.len() && forall|s: int|
                                0 <= s < p.len() ==> (#[trigger] best.path@[s])@ == keys[p[s] as int]
                    }
                }
            }),
    {
        let graph = graph_handler.graph();
        let ghost keys = graph@.keys;
        let source = (request.source_exchange.clone(), request.source_currency.clone());
        let destination = (request.destination_exchange.clone(), request.destination_currency.clone());
        let from_node = match graph.index_map.get(&source) {
            Some(i) => *i,
            None => return Err(PathError::UnknownNode),
        };
        let to_node = match graph.index_map.get(&destination) {
            Some(j) => *j,
            None => return Err(PathError::UnknownNode),
        };
        proof {
            lemma_index_of_unique(keys, source@, from_node as int);
            lemma_index_of_unique(keys, destination@, to_node as int);
        }
        let table = Self::best_rates(graph_handler, combine, prefer);
        let ids = match Self::path(from_node, to_node, &table) {
            Ok(Some(ids)) => ids,
            Ok(None) => return Ok(None),
            Err(e) => return Err(e),
        };
        assert(table.rate@[from_node as int]@ == table@.rate[from_node as int]);
        let rate = table.rate[from_node][to_node];
        let ghost t = table@;
        proof {
            assert forall|s: int| 0 <= s < ids@.len() implies #[trigger] ids@[s] < keys.len() by {
                lemma_walk_in_range(t.next, keys.len(), from_node, to_node, ids@, s);
            }
        }
        let mut path: Vec<(String, String)> = Vec::new();
        let mut s: usize = 0;
        while s < ids.len()
            invariant
                graph.wf(),
                keys == graph@.keys,
                s <= ids@.len(),
                path@.len() == s,
                forall|x: int| 0 <= x < ids@.len() ==> #[trigger] ids@[x] < keys.len(),
                forall|x: int| 0 <= x < s ==> (#[trigger] path@[x])@ == keys[ids@[x] as int],
            decreases ids@.len() - s,
        {
            match graph.index_map.get_index(&ids[s]) {
                Some(key) => path.push(key.copy_key()),
                None => {
                    assert(ids@[s as int] < keys.len());
                },
            }
            s += 1;
        }
        assert(keys.index_of(source@) as usize == from_node);
        assert(keys.index_of(destination@) as usize == to_node);
        assert(is_hop_chain(t.next, from_node, to_node, ids@));
        assert(path@.len() == ids@.len() && forall|x: int|
            0 <= x < ids@.len() ==> (#[trigger] path@[x])@ == keys[ids@[x] as int]);
        Ok(Some(BestRate { rate, path }))
    }

    /// Relaxes the pair (i, j) through `k` in place.
    fn relax_pair<M: Fn(u64, u64) -> u64, B: Fn(u64, u64) -> bool>(
        table: &mut RateTable,
        k: usize,
        i: usize,
        j: usize,
        combine: &M,
        prefer: &B,
    )
        requires
            old(table).wf(),
            k < old(table).size(),
            i < old(table).size(),
            j < old(table).size(),
            deterministic(*combine),
            deterministic(*prefer),
        ensures
            final(table).wf(),
            final(table).size() == old(table).size(),
            final(table)@ == relax(*combine, *prefer, old(table)@, k as int, i as int, j as int),
    {
        let ghost t = table@;
        let n = table.next.len();
        assert(table.rate@[i as int]@ == t.rate[i as int]);
        assert(table.rate@[k as int]@ == t.rate[k as int]);
        let via = combine(table.rate[i][k], table.rate[k][j]);
        proof {
            lemma_result_of(*combine, t.rate[i as int][k as int], t.rate[k as int][j as int], via);
        }
        let outranks = prefer(via, table.rate[i][j]);
        proof {
            lemma_result_of(*prefer, via, t.rate[i as int][j as int], outranks);
        }
        if outranks {
            assert(table.next@[i as int]@ == t.next[i as int]);
            let hop = table.next[i][k];
            table.rate[i].set(j, via);
            table.next[i].set(j, hop);
            assert(table@.rate =~= t.rate.update(i as int, t.rate[i as int].update(j as int, via)));
            assert(table@.next =~= t.next.update(i as int, t.next[i as int].update(j as int, hop)));
        }
    }
}

} // verus!
