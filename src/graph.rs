//! The exchange graph: one node per (venue, currency), an edge per direction
//! of each quote, and frictionless links between venues for one currency.
use crate::petgraph_specs::{edge_list, edge_weights, empty_graph, number_of_edges, put_edge, weight_between, FactorGraph};
use crate::quote::{PriceUpdate, QuoteView};
use crate::registry::{entered, entry_index, lemma_distinct_keys_distinct_ids, lemma_entered, Index, IndexHashMap};
use vstd::prelude::*;

verus! {

/// The factor of a move between venues within one currency: the binary64
/// bit pattern of one.
pub const UNIT_FACTOR: u64 = 0x3ff0_0000_0000_0000;

/// The graph as plain values: node keys (venue, currency) by id, and the
/// weight of each edge (tail id, head id).
pub struct GraphView {
    pub keys: Seq<(Seq<char>, Seq<char>)>,
    pub edges: Map<(usize, usize), u64>,
}

/// `e` links `node` with another node, among the first `upto` ids, that
/// holds the same currency.
pub open spec fn is_link(keys: Seq<(Seq<char>, Seq<char>)>, node: int, upto: int, e: (usize, usize)) -> bool {
    ||| (e.0 == node && e.1 < upto && e.1 != node && keys[e.1 as int].1 == keys[node].1)
    ||| (e.1 == node && e.0 < upto && e.0 != node && keys[e.0 as int].1 == keys[node].1)
}

/// `edges` with the links of `node` to the same currency at other venues,
/// among the first `upto` ids, each way with the unit factor.
pub open spec fn with_links(
    edges: Map<(usize, usize), u64>,
    keys: Seq<(Seq<char>, Seq<char>)>,
    node: int,
    upto: int,
) -> Map<(usize, usize), u64> {
    Map::new(
        |e: (usize, usize)| edges.contains_key(e) || is_link(keys, node, upto, e),
        |e: (usize, usize)|
            if is_link(keys, node, upto, e) {
                UNIT_FACTOR
            } else {
                edges[e]
            },
    )
}

/// The edges after a quote whose nodes got `s` and `d` from the registry,
/// `keys` being the registry's keys afterwards: a new node is linked to its
/// currency at the other venues, then the two factors are set.
pub open spec fn quote_edges(
    edges: Map<(usize, usize), u64>,
    keys: Seq<(Seq<char>, Seq<char>)>,
    s: Index,
    d: Index,
    forward: u64,
    backward: u64,
) -> Map<(usize, usize), u64> {
    let e1 = if s is Inserted {
        with_links(edges, keys, s.id() as int, keys.len() as int)
    } else {
        edges
    };
    let e2 = if d is Inserted {
        with_links(e1, keys, d.id() as int, keys.len() as int)
    } else {
        e1
    };
    e2.insert((s.id(), d.id()), forward).insert((d.id(), s.id()), backward)
}

/// The registry's answers for a quote's two nodes.
pub open spec fn quote_indices(keys: Seq<(Seq<char>, Seq<char>)>, q: QuoteView) -> (Index, Index) {
    let ks = (q.exchange, q.source);
    let kd = (q.exchange, q.destination);
    (entry_index(keys, ks), entry_index(entered(keys, ks), kd))
}

/// The graph after `add(q)`.
pub open spec fn after_quote(g: GraphView, q: QuoteView) -> GraphView {
    let ks = (q.exchange, q.source);
    let kd = (q.exchange, q.destination);
    let keys = entered(entered(g.keys, ks), kd);
    let (s, d) = quote_indices(g.keys, q);
    GraphView { keys, edges: quote_edges(g.edges, keys, s, d, q.forward, q.backward) }
}

/// Every edge joins two known nodes.
pub open spec fn edges_within(edges: Map<(usize, usize), u64>, n: int) -> bool {
    forall|e: (usize, usize)| #[trigger] edges.contains_key(e) ==> e.0 < n && e.1 < n
}

/// After a quote between two different currencies, the edge from its
/// source node to its destination node carries the forward factor and the
/// edge back carries the backward factor, whatever the graph held before.
pub proof fn lemma_quote_sets_factors(g: GraphView, q: QuoteView)
    requires
        g.keys.no_duplicates(),
        g.keys.len() + 2 < usize::MAX,
        q.source != q.destination,
    ensures
        ({
            let (s, d) = quote_indices(g.keys, q);
            let e = after_quote(g, q).edges;
            &&& s.id() != d.id()
            &&& e.contains_key((s.id(), d.id()))
            &&& e[(s.id(), d.id())] == q.forward
            &&& e.contains_key((d.id(), s.id()))
            &&& e[(d.id(), s.id())] == q.backward
        }),
{
    lemma_distinct_keys_distinct_ids(g.keys, (q.exchange, q.source), (q.exchange, q.destination));
}

/// A single quote on an empty graph gives exactly two edges: source to
/// destination with the forward factor, and back with the backward factor.
pub proof fn lemma_single_quote(g: GraphView, q: QuoteView)
    requires
        g.keys.len() == 0,
        g.edges.dom() == Set::<(usize, usize)>::empty(),
        q.source != q.destination,
    ensures
        after_quote(g, q).edges == map![(0usize, 1usize) => q.forward, (1usize, 0usize) => q.backward],
        after_quote(g, q).edges.len() == 2,
{
    let ks = (q.exchange, q.source);
    let kd = (q.exchange, q.destination);
    let keys1 = entered(g.keys, ks);
    assert(!g.keys.contains(ks));
    assert(keys1 =~= seq![ks]);
    assert(!keys1.contains(kd)) by {
        assert(keys1[0] != kd);
    }
    let keys = entered(keys1, kd);
    assert(keys =~= seq![ks, kd]);
    let e1 = with_links(g.edges, keys, 0, 2);
    assert(e1 =~= g.edges) by {
        assert(keys[1].1 != keys[0].1);
    }
    let e2 = with_links(e1, keys, 1, 2);
    assert(e2 =~= g.edges);
    assert(after_quote(g, q).edges =~= map![(0usize, 1usize) => q.forward, (1usize, 0usize) => q.backward]);
    assert(map![(0usize, 1usize) => q.forward, (1usize, 0usize) => q.backward].dom() =~= set![(0usize, 1usize), (1usize, 0usize)]);
}

/// Two quotes for the same venue and currencies, one after the other on an
/// empty graph, leave two edges, which carry the second quote's factors.
pub proof fn lemma_same_quote_twice(g: GraphView, q1: QuoteView, q2: QuoteView)
    requires
        g.keys.len() == 0,
        g.edges.dom() == Set::<(usize, usize)>::empty(),
        q1.source != q1.destination,
        q2.identity() == q1.identity(),
    ensures
        after_quote(after_quote(g, q1), q2).edges == map![(0usize, 1usize) => q2.forward, (1usize, 0usize) => q2.backward],
        after_quote(after_quote(g, q1), q2).edges.len() == 2,
{
    lemma_single_quote(g, q1);
    let g1 = after_quote(g, q1);
    let ks = (q1.exchange, q1.source);
    let kd = (q1.exchange, q1.destination);
    assert(!g.keys.contains(ks));
    assert(entered(g.keys, ks) =~= seq![ks]);
    assert(!entered(g.keys, ks).contains(kd)) by {
        assert(entered(g.keys, ks)[0] != kd);
    }
    assert(g1.keys =~= seq![ks, kd]);
    assert(g1.keys[0] == ks && g1.keys[1] == kd);
    assert(g1.keys.contains(ks));
    assert(g1.keys.index_of(ks) == 0) by {
        let j = g1.keys.index_of(ks);
        assert(g1.keys[j] == ks);
    }
    assert(g1.keys.contains(kd));
    assert(g1.keys.index_of(kd) == 1) by {
        let j = g1.keys.index_of(kd);
        assert(g1.keys[j] == kd);
    }
    assert(entered(g1.keys, ks) == g1.keys);
    assert(after_quote(g1, q2).edges =~= map![(0usize, 1usize) => q2.forward, (1usize, 0usize) => q2.backward]);
    assert(map![(0usize, 1usize) => q2.forward, (1usize, 0usize) => q2.backward].dom() =~= set![(0usize, 1usize), (1usize, 0usize)]);
}

/// A quote at a second venue whose source currency the first venue's quote
/// already holds, and whose destination currency is new, adds its own two
/// edges and the two unit links between the shared currency's nodes.
pub proof fn lemma_shared_currency_links(g: GraphView, q1: QuoteView, q2: QuoteView)
    requires
        g.keys.len() == 0,
        g.edges.dom() == Set::<(usize, usize)>::empty(),
        q1.source != q1.destination,
        q2.exchange != q1.exchange,
        q2.source == q1.source,
        q2.destination != q1.source,
        q2.destination != q1.destination,
    ensures
        after_quote(after_quote(g, q1), q2).edges == map![
            (0usize, 1usize) => q1.forward,
            (1usize, 0usize) => q1.backward,
            (0usize, 2usize) => UNIT_FACTOR,
            (2usize, 0usize) => UNIT_FACTOR,
            (2usize, 3usize) => q2.forward,
            (3usize, 2usize) => q2.backward
        ],
        after_quote(after_quote(g, q1), q2).edges.len() == 6,
{
    lemma_single_quote(g, q1);
    let g1 = after_quote(g, q1);
    let ks = (q1.exchange, q1.source);
    let kd = (q1.exchange, q1.destination);
    assert(!g.keys.contains(ks));
    assert(entered(g.keys, ks) =~= seq![ks]);
    assert(!entered(g.keys, ks).contains(kd)) by {
        assert(entered(g.keys, ks)[0] != kd);
    }
    assert(g1.keys =~= seq![ks, kd]);
    let ks2 = (q2.exchange, q2.source);
    let kd2 = (q2.exchange, q2.destination);
    assert(!g1.keys.contains(ks2)) by {
        assert(g1.keys[0] != ks2 && g1.keys[1] != ks2);
    }
    let keys1 = entered(g1.keys, ks2);
    assert(keys1 =~= seq![ks, kd, ks2]);
    assert(!keys1.contains(kd2)) by {
        assert(keys1[0] != kd2 && keys1[1] != kd2 && keys1[2] != kd2);
    }
    let keys = entered(keys1, kd2);
    assert(keys =~= seq![ks, kd, ks2, kd2]);
    let e1 = with_links(g1.edges, keys, 2, 4);
    let e2 = with_links(e1, keys, 3, 4);
    let expected = map![
        (0usize, 1usize) => q1.forward,
        (1usize, 0usize) => q1.backward,
        (0usize, 2usize) => UNIT_FACTOR,
        (2usize, 0usize) => UNIT_FACTOR,
        (2usize, 3usize) => q2.forward,
        (3usize, 2usize) => q2.backward
    ];
    assert(after_quote(g1, q2).edges =~= expected);
    assert(expected.dom() =~= set![
        (0usize, 1usize),
        (1usize, 0usize),
        (0usize, 2usize),
        (2usize, 0usize),
        (2usize, 3usize),
        (3usize, 2usize)
    ]);
}

#[derive(Debug)]
pub struct ExchangeCompleteGraph {
    pub graph: FactorGraph,
    pub index_map: IndexHashMap<(String, String)>,
}

impl View for ExchangeCompleteGraph {
    type V = GraphView;

    open spec fn view(&self) -> GraphView {
        GraphView { keys: self.index_map@, edges: edge_weights(self.graph) }
    }
}

impl Default for ExchangeCompleteGraph {
    fn default() -> (r: ExchangeCompleteGraph)
        ensures
            r.wf(),
            r@.keys == Seq::<(Seq<char>, Seq<char>)>::empty(),
            r@.edges.dom() == Set::<(usize, usize)>::empty(),
    {
        ExchangeCompleteGraph::new()
    }
}

impl ExchangeCompleteGraph {
    pub open spec fn wf(&self) -> bool {
        &&& self.index_map.wf()
        &&& edge_weights(self.graph).dom().finite()
        &&& edges_within(edge_weights(self.graph), self.index_map@.len() as int)
    }

    pub fn new() -> (r: ExchangeCompleteGraph)
        ensures
            r.wf(),
            r@.keys == Seq::<(Seq<char>, Seq<char>)>::empty(),
            r@.edges.dom() == Set::<(usize, usize)>::empty(),
    {
        let r = ExchangeCompleteGraph { graph: empty_graph(), index_map: IndexHashMap::new() };
        assert(edge_weights(r.graph) =~= Map::empty());
        r
    }

    /// Enters the quote's two nodes, (venue, source currency) and (venue,
    /// destination currency), in the registry, links each new one to its
    /// currency at the other venues, and sets the edge source to destination
    /// to the forward factor and the edge back to the backward factor.
    pub fn add(&mut self, price_update: &PriceUpdate) -> (r: (Index, Index))
        requires
            old(self).wf(),
            old(self).index_map@.len() + 2 < usize::MAX,
        ensures
            final(self).wf(),
            r == quote_indices(old(self)@.keys, price_update@),
            final(self)@ == after_quote(old(self)@, price_update@),
    {
        let ghost q = price_update@;
        let ghost keys0 = self.index_map@;
        let ghost e0 = edge_weights(self.graph);
        let source_node = (price_update.exchange.clone(), price_update.source_currency.clone());
        let dest_node = (price_update.exchange.clone(), price_update.destination_currency.clone());
        let ghost ks = source_node@;
        let ghost kd = dest_node@;

        let source_index = self.index_map.entry(source_node);
        proof {
            lemma_entered(keys0, ks);
        }
        let ghost keys1 = self.index_map@;
        let dest_index = self.index_map.entry(dest_node);
        proof {
            lemma_entered(keys1, kd);
        }
        let ghost keys = self.index_map@;
        let ghost s = source_index.id();
        let ghost d = dest_index.id();

        match (&source_index, &dest_index) {
            (Index::Fetched(source_index), Index::Fetched(dest_index)) => {
                put_edge(&mut self.graph, *source_index, *dest_index, price_update.forward_factor);
                put_edge(&mut self.graph, *dest_index, *source_index, price_update.backward_factor);
            },
            (Index::Fetched(source_index), Index::Inserted(dest_index)) => {
                self.insert_for_exchange(price_update, *dest_index, Some(*source_index), false);
                proof {
                    let linked = with_links(e0, keys, d as int, keys.len() as int);
                    assert(linked.insert((d, s), q.backward).insert((s, d), q.forward) =~= linked.insert(
                        (s, d),
                        q.forward,
                    ).insert((d, s), q.backward));
                }
            },
            (Index::Inserted(source_index), Index::Fetched(dest_index)) => {
                self.insert_for_exchange(price_update, *source_index, Some(*dest_index), true);
            },
            (Index::Inserted(source_index), Index::Inserted(dest_index)) => {
                self.insert_for_exchange(price_update, *source_index, None, true);
                self.insert_for_exchange(price_update, *dest_index, Some(*source_index), false);
                proof {
                    let linked = with_links(
                        with_links(e0, keys, s as int, keys.len() as int),
                        keys,
                        d as int,
                        keys.len() as int,
                    );
                    assert(linked.insert((d, s), q.backward).insert((s, d), q.forward) =~= linked.insert(
                        (s, d),
                        q.forward,
                    ).insert((d, s), q.backward));
                }
            },
        }
        (source_index, dest_index)
    }

    /// Every edge with its weight, each once, in no promised order.
    pub fn get_edges(&self) -> (r: Vec<(usize, usize, u64)>)
        requires
            self.wf(),
        ensures
            r@.len() == self@.edges.len(),
            forall|i: int|
                0 <= i < r@.len() ==> self@.edges.contains_key((#[trigger] r@[i].0, r@[i].1))
                    && self@.edges[(r@[i].0, r@[i].1)] == r@[i].2,
            forall|i: int, j: int|
                0 <= i < j < r@.len() ==> (#[trigger] r@[i].0, r@[i].1) != (#[trigger] r@[j].0, r@[j].1),
    {
        edge_list(&self.graph)
    }

    /// The weight of the edge from `a` to `b`, if there is one.
    pub fn edge_weight(&self, a: usize, b: usize) -> (r: Option<u64>)
        ensures
            r == (if self@.edges.contains_key((a, b)) {
                Some(self@.edges[(a, b)])
            } else {
                None
            }),
    {
        weight_between(&self.graph, a, b)
    }

    pub fn edge_count(&self) -> (r: usize)
        ensures
            r == self@.edges.len(),
    {
        number_of_edges(&self.graph)
    }

    /// Links `node` to its currency at the other venues and, given an
    /// `origin`, sets the quote's factors between the two. `is_forward`
    /// says that `node` is the quote's source.
    fn insert_for_exchange(
        &mut self,
        price_update: &PriceUpdate,
        node: usize,
        origin: Option<usize>,
        is_forward: bool,
    )
        requires
            old(self).wf(),
            node < old(self).index_map@.len(),
            origin matches Some(o) ==> o < old(self).index_map@.len(),
            old(self).index_map@[node as int].1 == (if is_forward {
                price_update.source_currency@
            } else {
                price_update.destination_currency@
            }),
        ensures
            final(self).wf(),
            final(self).index_map@ == old(self).index_map@,
            ({
                let keys = old(self).index_map@;
                let linked = with_links(edge_weights(old(self).graph), keys, node as int, keys.len() as int);
                let (f, b) = if is_forward {
                    (price_update.forward_factor, price_update.backward_factor)
                } else {
                    (price_update.backward_factor, price_update.forward_factor)
                };
                edge_weights(final(self).graph) == match origin {
                    Some(o) => linked.insert((node, o), f).insert((o, node), b),
                    None => linked,
                }
            }),
    {
        let ghost keys = self.index_map@;
        let ghost e0 = edge_weights(self.graph);
        let currency = if is_forward {
            &price_update.source_currency
        } else {
            &price_update.destination_currency
        };
        let n = self.index_map.len();
        let mut x: usize = 0;
        assert(edge_weights(self.graph) =~= with_links(e0, keys, node as int, 0));
        while x < n
            invariant
                self.index_map.wf(),
                self.index_map@ == keys,
                n == keys.len(),
                node < n,
                keys[node as int].1 == currency@,
                x <= n,
                edge_weights(self.graph) == with_links(e0, keys, node as int, x as int),
                edge_weights(self.graph).dom().finite(),
                edges_within(edge_weights(self.graph), n as int),
            decreases n - x,
        {
            let same_currency = match self.index_map.get_index(&x) {
                Some(key) => <String as PartialEq>::eq(&key.1, currency),
                None => false,
            };
            let ghost before = edge_weights(self.graph);
            if x != node && same_currency {
                put_edge(&mut self.graph, node, x, UNIT_FACTOR);
                put_edge(&mut self.graph, x, node, UNIT_FACTOR);
            }
            proof {
                assert(edge_weights(self.graph) =~= with_links(e0, keys, node as int, x + 1));
            }
            x += 1;
        }
        match origin {
            Some(origin_index) => {
                let forward_factor = if is_forward {
                    price_update.forward_factor
                } else {
                    price_update.backward_factor
                };
                let backward_factor = if is_forward {
                    price_update.backward_factor
                } else {
                    price_update.forward_factor
                };
                put_edge(&mut self.graph, node, origin_index, forward_factor);
                put_edge(&mut self.graph, origin_index, node, backward_factor);
            },
            None => {},
        }
    }
}

} // verus!
