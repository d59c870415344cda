//! The latest quote for each venue and pair of currencies, and the graph
//! that the accepted quotes have built.
use crate::graph::{after_quote, ExchangeCompleteGraph, GraphView};
use crate::quote::{PriceUpdate, QuoteView};
use crate::registry::{lemma_entered, lemma_index_of_unique, IndexHashMap};
use vstd::prelude::*;

verus! {

/// The handler as plain values: the graph and the retained quotes.
pub struct HandlerView {
    pub graph: GraphView,
    pub quotes: Seq<QuoteView>,
}

/// The identities of the retained quotes, in order.
pub open spec fn identities_of(quotes: Seq<QuoteView>) -> Seq<(Seq<char>, Seq<char>, Seq<char>)> {
    quotes.map_values(|q: QuoteView| q.identity())
}

/// The handler after `handle_update(q)`: a quote with a new identity is
/// applied and kept; one that matches a retained quote replaces it and is
/// applied when it is not older, and is dropped otherwise.
pub open spec fn after_update(h: HandlerView, q: QuoteView) -> HandlerView {
    let ids = identities_of(h.quotes);
    if ids.contains(q.identity()) {
        let i = ids.index_of(q.identity());
        if q.timestamp.not_older_than(h.quotes[i].timestamp) {
            HandlerView { graph: after_quote(h.graph, q), quotes: h.quotes.update(i, q) }
        } else {
            h
        }
    } else {
        HandlerView { graph: after_quote(h.graph, q), quotes: h.quotes.push(q) }
    }
}

/// Two quotes with one identity that the handler has not seen: the first is
/// applied and kept; the second then replaces it, and is applied on top,
/// when it is not older, and leaves everything as the first left it when it
/// is older.
pub proof fn lemma_freshness(h: HandlerView, q1: QuoteView, q2: QuoteView)
    requires
        identities_of(h.quotes).no_duplicates(),
        !identities_of(h.quotes).contains(q1.identity()),
        q2.identity() == q1.identity(),
    ensures
        after_update(h, q1) == (HandlerView { graph: after_quote(h.graph, q1), quotes: h.quotes.push(q1) }),
        !q2.timestamp.not_older_than(q1.timestamp) ==> after_update(after_update(h, q1), q2)
            == after_update(h, q1),
        q2.timestamp.not_older_than(q1.timestamp) ==> after_update(after_update(h, q1), q2) == (HandlerView {
            graph: after_quote(after_quote(h.graph, q1), q2),
            quotes: h.quotes.push(q2),
        }),
{
    let ids = identities_of(h.quotes);
    let quotes1 = h.quotes.push(q1);
    let ids1 = identities_of(quotes1);
    assert(ids1 =~= ids.push(q1.identity()));
    let n = h.quotes.len() as int;
    assert(ids1[n] == q1.identity());
    assert(ids1.no_duplicates()) by {
        assert forall|a: int, b: int| 0 <= a < b < ids1.len() implies ids1[a] != ids1[b] by {
            if b == n {
                assert(ids1[a] == ids[a]);
            } else {
                assert(ids1[a] == ids[a] && ids1[b] == ids[b]);
            }
        }
    }
    lemma_index_of_unique(ids1, q2.identity(), n);
    assert(quotes1.update(n, q2) =~= h.quotes.push(q2));
}

#[derive(Debug)]
pub struct GraphHandler {
    pub exchange_graph: ExchangeCompleteGraph,
    pub price_updates: Vec<PriceUpdate>,
    identities: IndexHashMap<(String, String, String)>,
}

impl View for GraphHandler {
    type V = HandlerView;

    closed spec fn view(&self) -> HandlerView {
        HandlerView {
            graph: self.exchange_graph@,
            quotes: self.price_updates@.map_values(|q: PriceUpdate| q@),
        }
    }
}

impl Default for GraphHandler {
    fn default() -> (r: GraphHandler)
        ensures
            r.wf(),
            r@.graph.keys == Seq::<(Seq<char>, Seq<char>)>::empty(),
            r@.graph.edges.dom() == Set::<(usize, usize)>::empty(),
            r@.quotes == Seq::<QuoteView>::empty(),
    {
        GraphHandler::new()
    }
}

impl GraphHandler {
    /// The graph is well formed and the identity table lists the retained
    /// quotes' identities, in order.
    pub closed spec fn parts_inv(&self) -> bool {
        &&& self.exchange_graph.wf()
        &&& self.identities.wf()
        &&& self.identities@ == identities_of(self@.quotes)
    }

    pub open spec fn wf(&self) -> bool {
        &&& self.parts_inv()
        &&& identities_of(self@.quotes).no_duplicates()
    }

    pub fn new() -> (r: GraphHandler)
        ensures
            r.wf(),
            r@.graph.keys == Seq::<(Seq<char>, Seq<char>)>::empty(),
            r@.graph.edges.dom() == Set::<(usize, usize)>::empty(),
            r@.quotes == Seq::<QuoteView>::empty(),
    {
        let r = GraphHandler {
            exchange_graph: ExchangeCompleteGraph::new(),
            price_updates: Vec::new(),
            identities: IndexHashMap::new(),
        };
        assert(r@.quotes =~= Seq::<QuoteView>::empty());
        assert(identities_of(r@.quotes) =~= Seq::empty());
        r
    }

    /// The graph that the accepted quotes have built.
    pub fn graph(&self) -> (r: &ExchangeCompleteGraph)
        requires
            self.wf(),
        ensures
            r.wf(),
            r@ == self@.graph,
    {
        &self.exchange_graph
    }

    /// Applies a quote to the graph and keeps it, unless a retained quote
    /// with the same venue and currencies is newer.
    pub fn handle_update(&mut self, price_update: PriceUpdate)
        requires
            old(self).wf(),
            old(self)@.graph.keys.len() + 2 < usize::MAX,
            old(self)@.quotes.len() + 1 < usize::MAX,
        ensures
            final(self).wf(),
            final(self)@ == after_update(old(self)@, price_update@),
    {
        let ghost q = price_update@;
        let ghost quotes0 = self@.quotes;
        let key = (
            price_update.exchange.clone(),
            price_update.source_currency.clone(),
            price_update.destination_currency.clone(),
        );
        assert(key@ == q.identity());
        let found: Option<usize> = match self.identities.get(&key) {
            Some(i) => Some(*i),
            None => None,
        };
        match found {
            Some(i) => {
                proof {
                    lemma_index_of_unique(identities_of(quotes0), q.identity(), i as int);
                    assert(self.price_updates@[i as int]@ == quotes0[i as int]);
                }
                if price_update.timestamp.is_not_older_than(&self.price_updates[i].timestamp) {
                    self.exchange_graph.add(&price_update);
                    self.price_updates.set(i, price_update);
                    proof {
                        assert(self@.quotes =~= quotes0.update(i as int, q));
                        assert(identities_of(self@.quotes) =~= identities_of(quotes0));
                    }
                }
            },
            None => {
                self.exchange_graph.add(&price_update);
                self.identities.entry(key);
                self.price_updates.push(price_update);
                proof {
                    assert(self@.quotes =~= quotes0.push(q));
                    assert(identities_of(self@.quotes) =~= identities_of(quotes0).push(q.identity()));
                    lemma_entered(identities_of(quotes0), q.identity());
                }
            },
        }
    }
}

} // verus!
