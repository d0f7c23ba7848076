//! Semantic vector search: a layered proximity graph over fixed-dimension
//! fixed-point embedding vectors, with insertion and bounded-beam top-k
//! search, plus an embedding placeholder and an embedding cache.
//!
//! Distances are exact squared Euclidean distances of the fixed-point
//! components; with components scaled by 1000, a squared distance is the
//! real squared distance in millionths, the same scale as scores.

use vstd::prelude::*;

use crate::config::{EmbeddingModelConfig, HnswConfig, VectorConfig};
use crate::errors::SearchError;
use crate::{DocRef, COORD_LIMIT, MAX_DIMENSION, SCORE_SCALE};

verus! {

/// Highest layer an insertion can draw.
pub const LEVEL_CAP: usize = 31;

/// A vector fits an index of dimension `dim`: right length, every component
/// within [`COORD_LIMIT`].
pub open spec fn valid_embedding(v: Seq<i64>, dim: nat) -> bool {
    &&& v.len() == dim
    &&& forall|i: int| 0 <= i < v.len() ==> -COORD_LIMIT <= #[trigger] v[i] <= COORD_LIMIT
}

/// Partial sum of squared component differences over the first `n` entries.
pub closed spec fn dist_sum(a: Seq<i64>, b: Seq<i64>, n: int) -> int
    decreases n,
{
    if n <= 0 {
        0
    } else {
        dist_sum(a, b, n - 1) + (a[n - 1] - b[n - 1]) * (a[n - 1] - b[n - 1])
    }
}

/// The squared Euclidean distance of two vectors.
pub open spec fn distance_spec(a: Seq<i64>, b: Seq<i64>) -> int {
    dist_sum(a, b, a.len() as int)
}

/// The partial sums are nonnegative and bounded by the component limits.
proof fn lemma_dist_sum_bounds(a: Seq<i64>, b: Seq<i64>, n: int)
    requires
        n <= a.len(),
        n <= b.len(),
        forall|i: int| 0 <= i < a.len() ==> -COORD_LIMIT <= #[trigger] a[i] <= COORD_LIMIT,
        forall|i: int| 0 <= i < b.len() ==> -COORD_LIMIT <= #[trigger] b[i] <= COORD_LIMIT,
    ensures
        n <= 0 ==> dist_sum(a, b, n) == 0,
        0 <= dist_sum(a, b, n) <= if n <= 0 {
            0
        } else {
            n * 4_000_000_000_000
        },
    decreases n,
{
    if n > 0 {
        lemma_dist_sum_bounds(a, b, n - 1);
        let d = a[n - 1] - b[n - 1];
        assert(-2_000_000 <= d <= 2_000_000);
        assert(0 <= d * d <= 4_000_000_000_000) by (nonlinear_arith)
            requires
                -2_000_000 <= d <= 2_000_000,
        ;
        assert((n - 1) * 4_000_000_000_000 + 4_000_000_000_000 == n * 4_000_000_000_000)
            by (nonlinear_arith);
    }
}

/// The squared Euclidean distance, as an exact machine integer.
fn distance(a: &Vec<i64>, b: &Vec<i64>) -> (r: u64)
    requires
        a@.len() == b@.len(),
        a@.len() <= MAX_DIMENSION,
        forall|i: int| 0 <= i < a@.len() ==> -COORD_LIMIT <= #[trigger] a@[i] <= COORD_LIMIT,
        forall|i: int| 0 <= i < b@.len() ==> -COORD_LIMIT <= #[trigger] b@[i] <= COORD_LIMIT,
    ensures
        r == distance_spec(a@, b@),
{
    let mut acc: u64 = 0;
    let mut i: usize = 0;
    proof {
        lemma_dist_sum_bounds(a@, b@, 0);
    }
    while i < a.len()
        invariant
            i <= a@.len(),
            a@.len() == b@.len(),
            a@.len() <= MAX_DIMENSION,
            forall|j: int| 0 <= j < a@.len() ==> -COORD_LIMIT <= #[trigger] a@[j] <= COORD_LIMIT,
            forall|j: int| 0 <= j < b@.len() ==> -COORD_LIMIT <= #[trigger] b@[j] <= COORD_LIMIT,
            acc == dist_sum(a@, b@, i as int),
            acc <= (i as int) * 4_000_000_000_000,
        decreases a@.len() - i,
    {
        proof {
            lemma_dist_sum_bounds(a@, b@, i as int);
            lemma_dist_sum_bounds(a@, b@, i + 1 as int);
            assert((i as int) * 4_000_000_000_000 <= 1_000_000int * 4_000_000_000_000)
                by (nonlinear_arith)
                requires
                    0 <= i as int <= 1_000_000,
            ;
        }
        let d: i64 = a[i] - b[i];
        let sq: i64 = d * d;
        proof {
            assert(0 <= d * d <= 4_000_000_000_000) by (nonlinear_arith)
                requires
                    -2_000_000 <= d <= 2_000_000,
            ;
        }
        acc = acc + (sq as u64);
        i += 1;
    }
    acc
}

/// An entry some single search call reports: a stored reference paired with
/// its true distance from the query.
pub open spec fn reported_entry(
    contents: Seq<(DocRef, Seq<i64>)>,
    q: Seq<i64>,
    e: (DocRef, u64),
) -> bool {
    exists|i: int|
        0 <= i < contents.len() && e.0 == (#[trigger] contents[i]).0 && e.1 == distance_spec(
            q,
            contents[i].1,
        )
}

/// The reported entries come one-for-one out of distinct stored slots:
/// some injective index list ties each entry to its own vector, so a search
/// never reports one stored vector twice, though one reference inserted
/// twice may appear once per copy.
pub open spec fn distinct_provenance(
    contents: Seq<(DocRef, Seq<i64>)>,
    q: Seq<i64>,
    res: Seq<(DocRef, u64)>,
) -> bool {
    exists|idx: Seq<int>|
        {
            &&& idx.len() == res.len()
            &&& (forall|x: int, y: int|
                0 <= x < y < idx.len() ==> (#[trigger] idx[x]) != (#[trigger] idx[y]))
            &&& (forall|k: int|
                0 <= k < idx.len() ==> 0 <= #[trigger] idx[k] < contents.len() && res[k].0
                    == contents[idx[k]].0 && res[k].1 == distance_spec(q, contents[idx[k]].1))
        }
}

/// One node of the proximity graph: the stored reference, its vector, its
/// drawn layer, and one neighbor list per layer from 0 up to that layer.
#[derive(Debug)]
struct GraphNode {
    doc_ref: DocRef,
    vector: Vec<i64>,
    layer: usize,
    neighbors: Vec<Vec<usize>>,
}

/// Layered-graph index for approximate nearest neighbor search.
pub struct HnswIndex {
    config: HnswConfig,
    dimension: usize,
    nodes: Vec<GraphNode>,
    entry_point: usize,
    max_layer: usize,
    rng_state: u64,
}

/// One step of a split-mix generator; the low bits drive layer draws.
fn next_rand(state: &mut u64) -> (r: u64) {
    *state = state.wrapping_add(0x9E3779B97F4A7C15);
    let mut z: u64 = *state;
    z = (z ^ (z >> 30)).wrapping_mul(0xBF58476D1CE4E5B9);
    z = (z ^ (z >> 27)).wrapping_mul(0x94D049BB133111EB);
    z ^ (z >> 31)
}

/// Draws a layer from the truncated geometric distribution in which each
/// next layer is `m` times rarer, the discrete form of the standard
/// exponential layer assignment.
fn random_level(state: &mut u64, m: usize) -> (l: usize)
    requires
        m >= 1,
    ensures
        l <= LEVEL_CAP,
{
    let mut l: usize = 0;
    while l < LEVEL_CAP
        invariant
            l <= LEVEL_CAP,
            m >= 1,
        decreases LEVEL_CAP - l,
    {
        let r = next_rand(state);
        if r % (m as u64) != 0 {
            return l;
        }
        l += 1;
    }
    l
}

impl HnswIndex {
    /// One entry of a candidate or result list is a real node of the graph
    /// at or above `layer`, paired with its true distance from `q`.
    pub closed spec fn entry_ok(&self, e: (usize, u64), q: Seq<i64>, layer: int) -> bool {
        &&& (e.0 as int) < self.nodes@.len()
        &&& self.nodes@[e.0 as int].layer >= layer
        &&& e.1 == distance_spec(q, self.nodes@[e.0 as int].vector@)
    }

    /// Structural health of one node.
    pub closed spec fn node_ok(&self, i: int) -> bool {
        let nd = self.nodes@[i];
        &&& valid_embedding(nd.vector@, self.dimension as nat)
        &&& nd.neighbors@.len() == nd.layer + 1
        &&& nd.layer <= self.max_layer
        &&& (forall|l: int, j: int|
            0 <= l < nd.neighbors@.len() && 0 <= j < nd.neighbors@[l]@.len() ==> ((
            #[trigger] nd.neighbors@[l]@[j]) as int) < self.nodes@.len()
                && self.nodes@[nd.neighbors@[l]@[j] as int].layer >= l)
        &&& (forall|l: int|
            0 <= l < nd.neighbors@.len() ==> (#[trigger] nd.neighbors@[l]@.len())
                <= self.config.m)
    }

    /// Structural health of the graph: valid vectors, neighbor lists within
    /// bounds and pointing at nodes of at least their layer, and an entry
    /// point on the highest layer in use.
    pub closed spec fn wf(&self) -> bool {
        &&& 1 <= self.dimension <= MAX_DIMENSION
        &&& 1 <= self.config.m
        &&& (forall|i: int| 0 <= i < self.nodes@.len() ==> #[trigger] self.node_ok(i))
        &&& (self.nodes@.len() > 0 ==> (self.entry_point as int) < self.nodes@.len()
            && self.nodes@[self.entry_point as int].layer == self.max_layer)
    }

    /// What the index holds: each stored reference with its vector, in
    /// insertion order.
    pub closed spec fn contents(&self) -> Seq<(DocRef, Seq<i64>)> {
        self.nodes@.map_values(|nd: GraphNode| (nd.doc_ref, nd.vector@))
    }

    /// The configured dimension.
    pub closed spec fn spec_dimension(&self) -> nat {
        self.dimension as nat
    }

    /// Creates an empty graph. The dimension must be positive and within
    /// [`MAX_DIMENSION`], and the fan-out `m` must be positive.
    pub fn new(config: HnswConfig, dimension: usize) -> (r: Result<Self, SearchError>)
        ensures
            r is Ok <==> (1 <= dimension <= MAX_DIMENSION && config.m >= 1),
            match r {
                Ok(h) => h.wf() && h.contents() == Seq::<(DocRef, Seq<i64>)>::empty()
                    && h.spec_dimension() == dimension,
                Err(e) => e matches SearchError::Config { .. },
            },
    {
        if dimension < 1 || dimension > MAX_DIMENSION {
            return Err(SearchError::Config {
                message: String::from_str("vector dimension out of range"),
            });
        }
        if config.m < 1 {
            return Err(SearchError::Config {
                message: String::from_str("graph fan-out must be at least one"),
            });
        }
        let h = HnswIndex {
            config,
            dimension,
            nodes: Vec::new(),
            entry_point: 0,
            max_layer: 0,
            rng_state: 0x51ab_3c4d_5e6f_7081,
        };
        proof {
            assert(h.contents() =~= Seq::<(DocRef, Seq<i64>)>::empty());
        }
        Ok(h)
    }

    /// How many vectors the graph holds.
    pub fn size(&self) -> (r: usize)
        ensures
            r == self.contents().len(),
    {
        self.nodes.len()
    }

    /// One-hop greedy descent inside one layer: moves to the closest
    /// neighbor until no neighbor improves on the current node.
    fn greedy_closest(&self, q: &Vec<i64>, ep: usize, layer: usize) -> (r: usize)
        requires
            self.wf(),
            valid_embedding(q@, self.spec_dimension()),
            (ep as int) < self.nodes@.len(),
            self.nodes@[ep as int].layer >= layer,
        ensures
            (r as int) < self.nodes@.len(),
            self.nodes@[r as int].layer >= layer,
    {
        let mut cur = ep;
        proof {
            assert(self.node_ok(cur as int));
        }
        let mut curd = distance(q, &self.nodes[cur].vector);
        loop
            invariant
                self.wf(),
                valid_embedding(q@, self.spec_dimension()),
                (cur as int) < self.nodes@.len(),
                self.nodes@[cur as int].layer >= layer,
                curd == distance_spec(q@, self.nodes@[cur as int].vector@),
            decreases curd,
        {
            let mut best = cur;
            let mut bestd = curd;
            let mut j: usize = 0;
            proof {
                assert(self.node_ok(cur as int));
            }
            let nb_count = self.nodes[cur].neighbors[layer].len();
            while j < nb_count
                invariant
                    self.wf(),
                    valid_embedding(q@, self.spec_dimension()),
                    (cur as int) < self.nodes@.len(),
                    self.nodes@[cur as int].layer >= layer,
                    layer < self.nodes@[cur as int].neighbors@.len(),
                    nb_count == self.nodes@[cur as int].neighbors@[layer as int]@.len(),
                    j <= nb_count,
                    (best as int) < self.nodes@.len(),
                    self.nodes@[best as int].layer >= layer,
                    bestd == distance_spec(q@, self.nodes@[best as int].vector@),
                    bestd <= curd,
                decreases nb_count - j,
            {
                proof {
                    assert(self.node_ok(cur as int));
                }
                let cand = self.nodes[cur].neighbors[layer][j];
                proof {
                    assert(self.node_ok(cand as int));
                }
                let d = distance(q, &self.nodes[cand].vector);
                if d < bestd {
                    best = cand;
                    bestd = d;
                }
                j += 1;
            }
            if bestd < curd {
                cur = best;
                curd = bestd;
            } else {
                return cur;
            }
        }
    }

    /// Beam search inside one layer: returns up to `ef` nodes of that layer
    /// sorted by increasing distance from `q`, all distinct, each with its
    /// true distance.
    fn search_layer(&self, q: &Vec<i64>, ep: usize, ef: usize, layer: usize) -> (w: Vec<
        (usize, u64),
    >)
        requires
            self.wf(),
            valid_embedding(q@, self.spec_dimension()),
            (ep as int) < self.nodes@.len(),
            self.nodes@[ep as int].layer >= layer,
            ef >= 1,
        ensures
            1 <= w@.len() <= ef,
            forall|x: int, y: int|
                0 <= x < y < w@.len() ==> (#[trigger] w@[x]).1 <= (#[trigger] w@[y]).1,
            forall|k: int| 0 <= k < w@.len() ==> self.entry_ok(#[trigger] w@[k], q@, layer as int),
            forall|x: int, y: int|
                0 <= x < y < w@.len() ==> (#[trigger] w@[x]).0 != (#[trigger] w@[y]).0,
    {
        let n = self.nodes.len();
        let mut visited: Vec<bool> = vec![false; n];
        proof {
            assert(self.node_ok(ep as int));
        }
        let epd = distance(q, &self.nodes[ep].vector);
        visited[ep] = true;
        let mut results: Vec<(usize, u64)> = Vec::new();
        results.push((ep, epd));
        let mut candidates: Vec<(usize, u64)> = Vec::new();
        candidates.push((ep, epd));
        let mut budget = n;
        while candidates.len() > 0 && budget > 0
            invariant
                self.wf(),
                valid_embedding(q@, self.spec_dimension()),
                n == self.nodes@.len(),
                visited@.len() == n,
                budget <= n,
                1 <= results@.len() <= ef,
                forall|x: int, y: int|
                    0 <= x < y < results@.len() ==> (#[trigger] results@[x]).1 <= (
                    #[trigger] results@[y]).1,
                forall|k: int|
                    0 <= k < results@.len() ==> self.entry_ok(
                        #[trigger] results@[k],
                        q@,
                        layer as int,
                    ) && visited@[results@[k].0 as int],
                forall|x: int, y: int|
                    0 <= x < y < results@.len() ==> (#[trigger] results@[x]).0 != (
                    #[trigger] results@[y]).0,
                forall|k: int|
                    0 <= k < candidates@.len() ==> self.entry_ok(
                        #[trigger] candidates@[k],
                        q@,
                        layer as int,
                    ),
            decreases budget,
        {
            budget = budget - 1;
            let (cidx, cdist) = pop_closest_entry(&mut candidates);
            proof {
                assert(self.entry_ok((cidx, cdist), q@, layer as int));
            }
            if results.len() == ef && cdist > results[results.len() - 1].1 {
                break ;
            }
            proof {
                assert(self.node_ok(cidx as int));
            }
            let nb_count = self.nodes[cidx].neighbors[layer].len();
            let mut j: usize = 0;
            while j < nb_count
                invariant
                    self.wf(),
                    valid_embedding(q@, self.spec_dimension()),
                    n == self.nodes@.len(),
                    visited@.len() == n,
                    (cidx as int) < self.nodes@.len(),
                    self.nodes@[cidx as int].layer >= layer,
                    layer < self.nodes@[cidx as int].neighbors@.len(),
                    nb_count == self.nodes@[cidx as int].neighbors@[layer as int]@.len(),
                    j <= nb_count,
                    1 <= results@.len() <= ef,
                    forall|x: int, y: int|
                        0 <= x < y < results@.len() ==> (#[trigger] results@[x]).1 <= (
                        #[trigger] results@[y]).1,
                    forall|k: int|
                        0 <= k < results@.len() ==> self.entry_ok(
                            #[trigger] results@[k],
                            q@,
                            layer as int,
                        ) && visited@[results@[k].0 as int],
                    forall|x: int, y: int|
                        0 <= x < y < results@.len() ==> (#[trigger] results@[x]).0 != (
                        #[trigger] results@[y]).0,
                    forall|k: int|
                        0 <= k < candidates@.len() ==> self.entry_ok(
                            #[trigger] candidates@[k],
                            q@,
                            layer as int,
                        ),
                decreases nb_count - j,
            {
                proof {
                    assert(self.node_ok(cidx as int));
                }
                let nb = self.nodes[cidx].neighbors[layer][j];
                proof {
                    assert((nb as int) < self.nodes@.len());
                    assert(self.node_ok(nb as int));
                }
                if !visited[nb] {
                    visited[nb] = true;
                    let d = distance(q, &self.nodes[nb].vector);
                    let worst = results[results.len() - 1].1;
                    if results.len() < ef || d < worst {
                        proof {
                            assert forall|k: int|
                                0 <= k < results@.len() implies (#[trigger] results@[k]).0
                                != nb by {
                                assert(visited@[results@[k].0 as int]);
                            }
                        }
                        let ghost pre = results@;
                        insert_sorted_entry(&mut results, (nb, d));
                        proof {
                            let p = choose|p: int|
                                0 <= p <= pre.len() && results@ == pre.insert(p, (nb, d));
                            assert forall|k: int|
                                0 <= k < results@.len() implies self.entry_ok(
                                #[trigger] results@[k],
                                q@,
                                layer as int,
                            ) && visited@[results@[k].0 as int] by {
                                if k < p {
                                    assert(results@[k] == pre[k]);
                                } else if k == p {
                                    assert(results@[k] == (nb, d));
                                } else {
                                    assert(results@[k] == pre[k - 1]);
                                }
                            }
                            assert forall|x: int, y: int|
                                0 <= x < y < results@.len() implies (#[trigger] results@[x]).0 != (
                            #[trigger] results@[y]).0 by {
                                let xv = if x < p {
                                    pre[x]
                                } else if x == p {
                                    (nb, d)
                                } else {
                                    pre[x - 1]
                                };
                                let yv = if y < p {
                                    pre[y]
                                } else if y == p {
                                    (nb, d)
                                } else {
                                    pre[y - 1]
                                };
                                assert(results@[x] == xv);
                                assert(results@[y] == yv);
                            }
                        }
                        if results.len() > ef {
                            let ghost pre2 = results@;
                            results.pop();
                            proof {
                                assert(forall|k: int|
                                    0 <= k < results@.len() ==> #[trigger] results@[k] == pre2[k]);
                            }
                        }
                        candidates.push((nb, d));
                    }
                }
                j += 1;
            }
        }
        results
    }

    /// Keeps up to `m` candidates, preferring diversity: a candidate is
    /// dropped when it lies closer to an already chosen neighbor than to the
    /// point being inserted. Every kept entry is one of the candidates.
    fn select_neighbors(&self, w: &Vec<(usize, u64)>, m: usize, layer: usize) -> (r: Vec<usize>)
        requires
            self.wf(),
            forall|k: int|
                0 <= k < w@.len() ==> ((#[trigger] w@[k]).0 as int) < self.nodes@.len()
                    && self.nodes@[w@[k].0 as int].layer >= layer,
        ensures
            r@.len() <= m,
            forall|t: int|
                0 <= t < r@.len() ==> ((#[trigger] r@[t]) as int) < self.nodes@.len()
                    && self.nodes@[r@[t] as int].layer >= layer,
    {
        let mut r: Vec<usize> = Vec::new();
        let mut k: usize = 0;
        while k < w.len()
            invariant
                self.wf(),
                forall|t: int|
                    0 <= t < w@.len() ==> ((#[trigger] w@[t]).0 as int) < self.nodes@.len()
                        && self.nodes@[w@[t].0 as int].layer >= layer,
                k <= w@.len(),
                r@.len() <= m,
                forall|t: int|
                    0 <= t < r@.len() ==> ((#[trigger] r@[t]) as int) < self.nodes@.len()
                        && self.nodes@[r@[t] as int].layer >= layer,
            decreases w@.len() - k,
        {
            if r.len() >= m {
                break ;
            }
            let cand = w[k].0;
            let cd = w[k].1;
            let mut keep = true;
            let mut s: usize = 0;
            while s < r.len()
                invariant
                    self.wf(),
                    (cand as int) < self.nodes@.len(),
                    forall|t: int|
                        0 <= t < r@.len() ==> ((#[trigger] r@[t]) as int) < self.nodes@.len()
                            && self.nodes@[r@[t] as int].layer >= layer,
                    s <= r@.len(),
                decreases r@.len() - s,
            {
                proof {
                    assert(self.node_ok(cand as int));
                    assert(self.node_ok(r@[s as int] as int));
                }
                let ds = distance(&self.nodes[cand].vector, &self.nodes[r[s]].vector);
                if ds < cd {
                    keep = false;
                    break ;
                }
                s += 1;
            }
            if keep {
                r.push(cand);
            }
            k += 1;
        }
        r
    }

    /// Inserts a vector under its document reference: draws a layer, greedily
    /// descends to it, links the node into each of its layers with
    /// diversity-pruned neighbors, and makes it the entry point when it tops
    /// the graph. A vector of the wrong dimension or with an oversized
    /// component is rejected and the index left unchanged.
    pub fn add_vector(&mut self, doc_ref: DocRef, embedding: Vec<i64>) -> (r: Result<
        (),
        SearchError,
    >)
        requires
            old(self).wf(),
        ensures
            final(self).wf(),
            final(self).spec_dimension() == old(self).spec_dimension(),
            r is Ok <==> valid_embedding(embedding@, old(self).spec_dimension()),
            r is Ok ==> final(self).contents() == old(self).contents().push(
                (doc_ref, embedding@),
            ),
            r is Err ==> final(self).contents() == old(self).contents(),
            embedding@.len() != old(self).spec_dimension() ==> r matches Err(
                SearchError::Config { .. },
            ),
    {
        if embedding.len() != self.dimension {
            return Err(SearchError::Config {
                message: String::from_str("embedding dimension mismatch"),
            });
        }
        let mut ci: usize = 0;
        while ci < embedding.len()
            invariant
                ci <= embedding@.len(),
                forall|j: int|
                    0 <= j < ci ==> -COORD_LIMIT <= #[trigger] embedding@[j] <= COORD_LIMIT,
                *self == *old(self),
                old(self).wf(),
                embedding@.len() == old(self).spec_dimension(),
            decreases embedding@.len() - ci,
        {
            let c = embedding[ci];
            if c < -COORD_LIMIT || c > COORD_LIMIT {
                return Err(SearchError::ValidationFailed {
                    field: String::from_str("embedding"),
                    reason: String::from_str("component magnitude over the fixed-point limit"),
                });
            }
            ci += 1;
        }
        assert(valid_embedding(embedding@, self.spec_dimension()));
        let mut rng = self.rng_state;
        let level = random_level(&mut rng, self.config.m);
        self.rng_state = rng;
        proof {
            assert forall|i: int| 0 <= i < self.nodes@.len() implies #[trigger] self.node_ok(
                i,
            ) by {
                assert(old(self).node_ok(i));
            }
            assert(self.wf());
        }
        let mlayers = level + 1;
        let nid = self.nodes.len();
        if nid == 0 {
            let mut neighbors: Vec<Vec<usize>> = Vec::new();
            let mut li: usize = 0;
            while li < mlayers
                invariant
                    li <= mlayers,
                    neighbors@.len() == li,
                    forall|l: int| 0 <= l < li ==> (#[trigger] neighbors@[l])@.len() == 0,
                decreases mlayers - li,
            {
                neighbors.push(Vec::new());
                li += 1;
            }
            let node = GraphNode { doc_ref, vector: embedding, layer: level, neighbors };
            self.nodes.push(node);
            self.entry_point = 0;
            self.max_layer = level;
            proof {
                assert forall|i: int| 0 <= i < self.nodes@.len() implies #[trigger] self.node_ok(
                    i,
                ) by {
                    assert(i == 0);
                }
                assert(self.contents() =~= old(self).contents().push((doc_ref, embedding@)));
            }
            return Ok(());
        }
        // Greedy descent through the layers above the drawn one.
        let mut ep = self.entry_point;
        let mut lc = self.max_layer;
        proof {
            assert(self.wf());
        }
        while lc > level
            invariant
                self.wf(),
                valid_embedding(embedding@, self.spec_dimension()),
                (ep as int) < self.nodes@.len(),
                self.nodes@[ep as int].layer >= lc,
            decreases lc,
        {
            ep = self.greedy_closest(&embedding, ep, lc);
            lc -= 1;
        }
        let lmin = lc;
        // One beam search per layer from the entry layer down to zero.
        let ef = if self.config.ef_construction >= 1 {
            self.config.ef_construction
        } else {
            1
        };
        let mut sel_lists: Vec<Vec<usize>> = Vec::new();
        let mut li: usize = 0;
        while li < mlayers
            invariant
                li <= mlayers,
                sel_lists@.len() == li,
                forall|l: int| 0 <= l < li ==> (#[trigger] sel_lists@[l])@.len() == 0,
            decreases mlayers - li,
        {
            sel_lists.push(Vec::new());
            li += 1;
        }
        let mut layer_i = lmin + 1;
        while layer_i > 0
            invariant
                self.wf(),
                valid_embedding(embedding@, self.spec_dimension()),
                (ep as int) < self.nodes@.len(),
                ef >= 1,
                layer_i <= lmin + 1,
                layer_i >= 1 ==> self.nodes@[ep as int].layer >= layer_i - 1,
                lmin <= level,
                mlayers == level + 1,
                sel_lists@.len() == mlayers,
                forall|l: int, j: int|
                    0 <= l < sel_lists@.len() && 0 <= j < sel_lists@[l]@.len() ==> ((
                    #[trigger] sel_lists@[l]@[j]) as int) < self.nodes@.len()
                        && self.nodes@[sel_lists@[l]@[j] as int].layer >= l,
                forall|l: int|
                    0 <= l < sel_lists@.len() ==> (#[trigger] sel_lists@[l])@.len()
                        <= self.config.m,
            decreases layer_i,
        {
            let cur_layer = layer_i - 1;
            let w = self.search_layer(&embedding, ep, ef, cur_layer);
            let sel = self.select_neighbors(&w, self.config.m, cur_layer);
            ep = w[0].0;
            let ghost pre_lists = sel_lists@;
            sel_lists[cur_layer] = sel;
            proof {
                assert(sel_lists@ == pre_lists.update(cur_layer as int, sel));
                assert forall|l: int, j: int|
                    0 <= l < sel_lists@.len() && 0 <= j < sel_lists@[l]@.len() implies ((
                #[trigger] sel_lists@[l]@[j]) as int) < self.nodes@.len()
                    && self.nodes@[sel_lists@[l]@[j] as int].layer >= l by {
                    if l != cur_layer {
                        assert(sel_lists@[l] == pre_lists[l]);
                    }
                }
            }
            layer_i = cur_layer;
        }
        // The node joins the graph, and tops it when its layer is new.
        let node = GraphNode { doc_ref, vector: embedding, layer: level, neighbors: sel_lists };
        let ghost entry_state = *self;
        self.nodes.push(node);
        if level > self.max_layer {
            self.max_layer = level;
            self.entry_point = nid;
        }
        proof {
            assert forall|i: int| 0 <= i < self.nodes@.len() implies #[trigger] self.node_ok(
                i,
            ) by {
                if i < nid as int {
                    assert(entry_state.node_ok(i));
                    let nd = self.nodes@[i];
                    assert(nd == entry_state.nodes@[i]);
                    assert forall|l: int, j: int|
                        0 <= l < nd.neighbors@.len() && 0 <= j < nd.neighbors@[l]@.len() implies ((
                    #[trigger] nd.neighbors@[l]@[j]) as int) < self.nodes@.len()
                        && self.nodes@[nd.neighbors@[l]@[j] as int].layer >= l by {
                        assert(entry_state.nodes@[i].neighbors@[l]@[j] == nd.neighbors@[l]@[j]);
                        let tgt = nd.neighbors@[l]@[j] as int;
                        assert((tgt as int) < entry_state.nodes@.len());
                        assert(self.nodes@[tgt] == entry_state.nodes@[tgt]);
                    }
                } else {
                    assert(i == nid as int);
                    let nd = self.nodes@[i];
                    assert(nd.neighbors@.len() == level + 1);
                    assert forall|l: int, j: int|
                        0 <= l < nd.neighbors@.len() && 0 <= j < nd.neighbors@[l]@.len() implies ((
                    #[trigger] nd.neighbors@[l]@[j]) as int) < self.nodes@.len()
                        && self.nodes@[nd.neighbors@[l]@[j] as int].layer >= l by {
                        let tgt = nd.neighbors@[l]@[j] as int;
                        assert((tgt as int) < entry_state.nodes@.len());
                        assert(self.nodes@[tgt] == entry_state.nodes@[tgt]);
                    }
                }
            }
            assert(self.wf());
            assert(self.contents() =~= entry_state.contents().push((doc_ref, embedding@)));
            assert(entry_state.contents() == old(self).contents());
        }
        let ghost base = *self;
        proof {
            assert(base.contents() == old(self).contents().push((doc_ref, embedding@)));
            assert forall|l: int, j: int|
                0 <= l < base.nodes@[nid as int].neighbors@.len() && 0 <= j
                    < base.nodes@[nid as int].neighbors@[l]@.len() implies ((
            #[trigger] base.nodes@[nid as int].neighbors@[l]@[j]) as int) < nid as int by {
                assert(base.nodes@[nid as int].neighbors@[l] == sel_lists@[l]);
            }
        }
        // Reverse links: each selected neighbor also points back, its list
        // pruned to the farthest-out entry when it overflows.
        let mut lc2: usize = 0;
        while lc2 <= lmin
            invariant
                self.wf(),
                self.nodes@.len() == base.nodes@.len(),
                nid as int == base.nodes@.len() - 1,
                forall|x: int|
                    0 <= x < self.nodes@.len() ==> (#[trigger] self.nodes@[x]).doc_ref
                        == base.nodes@[x].doc_ref && self.nodes@[x].vector@
                        == base.nodes@[x].vector@ && self.nodes@[x].layer == base.nodes@[x].layer,
                self.nodes@[nid as int] == base.nodes@[nid as int],
                self.dimension == base.dimension,
                self.config == base.config,
                self.entry_point == base.entry_point,
                self.max_layer == base.max_layer,
                base.wf(),
                lmin <= level,
                level <= LEVEL_CAP,
                lc2 <= lmin + 1,
                base.nodes@[nid as int].layer == level,
                base.nodes@[nid as int].neighbors@.len() == level + 1,
                forall|l: int, j: int|
                    0 <= l < base.nodes@[nid as int].neighbors@.len() && 0 <= j
                        < base.nodes@[nid as int].neighbors@[l]@.len() ==> ((
                    #[trigger] base.nodes@[nid as int].neighbors@[l]@[j]) as int) < nid as int,
            decreases lmin + 1 - lc2,
        {
            let cnt = self.nodes[nid].neighbors[lc2].len();
            let mut t: usize = 0;
            while t < cnt
                invariant
                    self.wf(),
                    self.nodes@.len() == base.nodes@.len(),
                    nid as int == base.nodes@.len() - 1,
                    forall|x: int|
                        0 <= x < self.nodes@.len() ==> (#[trigger] self.nodes@[x]).doc_ref
                            == base.nodes@[x].doc_ref && self.nodes@[x].vector@
                            == base.nodes@[x].vector@ && self.nodes@[x].layer
                            == base.nodes@[x].layer,
                    self.nodes@[nid as int] == base.nodes@[nid as int],
                    self.dimension == base.dimension,
                    self.config == base.config,
                    self.entry_point == base.entry_point,
                    self.max_layer == base.max_layer,
                    base.wf(),
                    lmin <= level,
                    lc2 <= lmin,
                    base.nodes@[nid as int].layer == level,
                    base.nodes@[nid as int].neighbors@.len() == level + 1,
                    forall|l: int, j: int|
                        0 <= l < base.nodes@[nid as int].neighbors@.len() && 0 <= j
                            < base.nodes@[nid as int].neighbors@[l]@.len() ==> ((
                        #[trigger] base.nodes@[nid as int].neighbors@[l]@[j]) as int)
                            < nid as int,
                    cnt == self.nodes@[nid as int].neighbors@[lc2 as int]@.len(),
                    t <= cnt,
                decreases cnt - t,
            {
                proof {
                    assert(self.node_ok(nid as int));
                }
                let nb = self.nodes[nid].neighbors[lc2][t];
                proof {
                    assert((nb as int) < nid as int);
                    assert(self.node_ok(nb as int));
                    assert(self.nodes@[nb as int].layer >= lc2);
                }
                let mut lst = clone_usizes(&self.nodes[nb].neighbors[lc2]);
                lst.push(nid);
                proof {
                    assert forall|z: int| 0 <= z < lst@.len() implies ((#[trigger] lst@[z]) as int)
                        < self.nodes@.len() && self.nodes@[lst@[z] as int].layer >= lc2 by {
                        if z < lst@.len() - 1 {
                            assert(lst@[z] == self.nodes@[nb as int].neighbors@[lc2 as int]@[z]);
                        } else {
                            assert(lst@[z] == nid);
                            assert(self.nodes@[nid as int].layer == level >= lc2);
                        }
                    }
                    assert(lst@.len() <= self.config.m + 1);
                }
                if lst.len() > self.config.m {
                    let mut far: usize = 0;
                    proof {
                        assert(self.node_ok(nb as int));
                        assert(self.node_ok(lst@[0] as int));
                    }
                    let mut fard = distance(&self.nodes[nb].vector, &self.nodes[lst[0]].vector);
                    let mut z: usize = 1;
                    while z < lst.len()
                        invariant
                            self.wf(),
                            (nb as int) < self.nodes@.len(),
                            forall|y: int|
                                0 <= y < lst@.len() ==> ((#[trigger] lst@[y]) as int)
                                    < self.nodes@.len() && self.nodes@[lst@[y] as int].layer
                                    >= lc2,
                            far < lst@.len(),
                            z <= lst@.len(),
                        decreases lst@.len() - z,
                    {
                        proof {
                            assert(self.node_ok(nb as int));
                            assert(self.node_ok(lst@[z as int] as int));
                        }
                        let d = distance(&self.nodes[nb].vector, &self.nodes[lst[z]].vector);
                        if d > fard {
                            far = z;
                            fard = d;
                        }
                        z += 1;
                    }
                    let ghost pre_lst = lst@;
                    lst.swap_remove(far);
                    proof {
                        assert forall|y: int|
                            0 <= y < lst@.len() implies ((#[trigger] lst@[y]) as int)
                            < self.nodes@.len() && self.nodes@[lst@[y] as int].layer >= lc2 by {
                            if y == far as int {
                                assert(lst@[y] == pre_lst[pre_lst.len() - 1]);
                            } else {
                                assert(lst@[y] == pre_lst[y]);
                            }
                        }
                    }
                }
                let ghost newlist = lst@;
                let ghost pre = *self;
                let mut nbnode = self.nodes.remove(nb);
                let removed_list = nbnode.neighbors.remove(lc2);
                nbnode.neighbors.insert(lc2, lst);
                proof {
                    assert(nbnode.neighbors@ =~= pre.nodes@[nb as int].neighbors@.update(
                        lc2 as int,
                        nbnode.neighbors@[lc2 as int],
                    ));
                }
                self.nodes.insert(nb, nbnode);
                proof {
                    let ns = self.nodes@;
                    assert(ns =~= pre.nodes@.update(nb as int, ns[nb as int]));
                    let ndnb = ns[nb as int];
                    assert(ndnb.neighbors@[lc2 as int]@ == newlist);
                    assert forall|i: int| 0 <= i < ns.len() implies #[trigger] self.node_ok(
                        i,
                    ) by {
                        assert(pre.node_ok(i));
                        let nd = ns[i];
                        if i != nb as int {
                            assert(nd == pre.nodes@[i]);
                            assert forall|l: int, j: int|
                                0 <= l < nd.neighbors@.len() && 0 <= j
                                    < nd.neighbors@[l]@.len() implies ((
                            #[trigger] nd.neighbors@[l]@[j]) as int) < ns.len()
                                && ns[nd.neighbors@[l]@[j] as int].layer >= l by {
                                assert(pre.nodes@[i].neighbors@[l]@[j] == nd.neighbors@[l]@[j]);
                                let tgt = nd.neighbors@[l]@[j] as int;
                                assert(ns[tgt].layer == pre.nodes@[tgt].layer);
                            }
                        } else {
                            assert(nd.vector@ == pre.nodes@[i].vector@);
                            assert(nd.layer == pre.nodes@[i].layer);
                            assert(nd.neighbors@.len() == pre.nodes@[i].neighbors@.len());
                            assert forall|l: int, j: int|
                                0 <= l < nd.neighbors@.len() && 0 <= j
                                    < nd.neighbors@[l]@.len() implies ((
                            #[trigger] nd.neighbors@[l]@[j]) as int) < ns.len()
                                && ns[nd.neighbors@[l]@[j] as int].layer >= l by {
                                if l == lc2 as int {
                                    assert(nd.neighbors@[l]@ == newlist);
                                    let tgt = nd.neighbors@[l]@[j] as int;
                                    assert(ns[tgt].layer == pre.nodes@[tgt].layer);
                                } else {
                                    assert(nd.neighbors@[l] == pre.nodes@[i].neighbors@[l]);
                                    assert(pre.nodes@[i].neighbors@[l]@[j]
                                        == nd.neighbors@[l]@[j]);
                                    let tgt = nd.neighbors@[l]@[j] as int;
                                    assert(ns[tgt].layer == pre.nodes@[tgt].layer);
                                }
                            }
                            assert forall|l: int|
                                0 <= l < nd.neighbors@.len() implies (
                            #[trigger] nd.neighbors@[l]@.len()) <= self.config.m by {
                                if l != lc2 as int {
                                    assert(nd.neighbors@[l] == pre.nodes@[i].neighbors@[l]);
                                }
                            }
                        }
                    }
                    assert(self.wf());
                    assert(self.nodes@[nid as int] == base.nodes@[nid as int]);
                }
                t += 1;
            }
            lc2 += 1;
        }
        proof {
            assert(self.contents() =~= base.contents());
        }
        Ok(())
    }

    /// Approximate top-k search: greedy descent to the bottom layer, one
    /// bounded beam search there, and the closest `top_k` of its results, in
    /// order of increasing distance. An empty index yields an empty result; a
    /// query of the wrong shape is rejected.
    pub fn search(&self, query_embedding: &Vec<i64>, top_k: usize) -> (r: Result<
        Vec<(DocRef, u64)>,
        SearchError,
    >)
        requires
            self.wf(),
        ensures
            r is Ok <==> valid_embedding(query_embedding@, self.spec_dimension()),
            match r {
                Ok(res) => {
                    &&& res@.len() <= top_k
                    &&& (self.contents().len() == 0 ==> res@.len() == 0)
                    &&& (self.contents().len() > 0 && top_k > 0 ==> res@.len() >= 1)
                    &&& (forall|x: int, y: int|
                        0 <= x < y < res@.len() ==> (#[trigger] res@[x]).1 <= (
                        #[trigger] res@[y]).1)
                    &&& (forall|k: int|
                        0 <= k < res@.len() ==> reported_entry(
                            self.contents(),
                            query_embedding@,
                            #[trigger] res@[k],
                        ))
                    &&& distinct_provenance(self.contents(), query_embedding@, res@)
                },
                Err(e) => e matches SearchError::Config { .. },
            },
    {
        if query_embedding.len() != self.dimension {
            return Err(SearchError::Config {
                message: String::from_str("query embedding dimension mismatch"),
            });
        }
        let mut ci: usize = 0;
        while ci < query_embedding.len()
            invariant
                ci <= query_embedding@.len(),
                forall|j: int|
                    0 <= j < ci ==> -COORD_LIMIT <= #[trigger] query_embedding@[j] <= COORD_LIMIT,
                query_embedding@.len() == self.spec_dimension(),
            decreases query_embedding@.len() - ci,
        {
            let c = query_embedding[ci];
            if c < -COORD_LIMIT || c > COORD_LIMIT {
                return Err(SearchError::Config {
                    message: String::from_str("query component over the fixed-point limit"),
                });
            }
            ci += 1;
        }
        assert(valid_embedding(query_embedding@, self.spec_dimension()));
        if self.nodes.len() == 0 {
            let empty_res: Vec<(DocRef, u64)> = Vec::new();
            proof {
                let widx = Seq::<int>::empty();
                assert(widx.len() == empty_res@.len());
                assert(distinct_provenance(self.contents(), query_embedding@, empty_res@));
            }
            return Ok(empty_res);
        }
        let mut ep = self.entry_point;
        let mut lc = self.max_layer;
        while lc > 0
            invariant
                self.wf(),
                valid_embedding(query_embedding@, self.spec_dimension()),
                (ep as int) < self.nodes@.len(),
                self.nodes@[ep as int].layer >= lc,
            decreases lc,
        {
            ep = self.greedy_closest(query_embedding, ep, lc);
            lc -= 1;
        }
        let mut ef = self.config.ef_search;
        if ef < top_k {
            ef = top_k;
        }
        if ef < 1 {
            ef = 1;
        }
        let w = self.search_layer(query_embedding, ep, ef, 0);
        let mut res: Vec<(DocRef, u64)> = Vec::new();
        let mut i: usize = 0;
        while i < w.len() && i < top_k
            invariant
                self.wf(),
                forall|k: int|
                    0 <= k < w@.len() ==> self.entry_ok(#[trigger] w@[k], query_embedding@, 0),
                forall|x: int, y: int|
                    0 <= x < y < w@.len() ==> (#[trigger] w@[x]).1 <= (#[trigger] w@[y]).1,
                i <= w@.len(),
                i <= top_k,
                res@.len() == i,
                forall|k: int|
                    0 <= k < i ==> (#[trigger] res@[k]).0 == self.nodes@[w@[k].0 as int].doc_ref
                        && res@[k].1 == w@[k].1,
            decreases w@.len() - i,
        {
            proof {
                assert(self.entry_ok(w@[i as int], query_embedding@, 0));
            }
            res.push((self.nodes[w[i].0].doc_ref, w[i].1));
            i += 1;
        }
        proof {
            assert(res@.len() <= top_k);
            assert(self.contents().len() == self.nodes@.len());
            assert(self.contents().len() > 0);
            assert(top_k > 0 ==> res@.len() >= 1);
            let widx = Seq::new(res@.len(), |k: int| w@[k].0 as int);
            assert(widx.len() == res@.len());
            assert forall|x: int, y: int|
                0 <= x < y < widx.len() implies (#[trigger] widx[x]) != (#[trigger] widx[y]) by {
                assert(w@[x].0 != w@[y].0);
            }
            assert forall|k: int|
                0 <= k < widx.len() implies 0 <= #[trigger] widx[k] < self.contents().len()
                && res@[k].0 == self.contents()[widx[k]].0 && res@[k].1 == distance_spec(
                query_embedding@,
                self.contents()[widx[k]].1,
            ) by {
                let ii = w@[k].0 as int;
                assert(widx[k] == ii);
                assert(self.contents()[ii] == (self.nodes@[ii].doc_ref, self.nodes@[ii].vector@));
            }
            assert(distinct_provenance(self.contents(), query_embedding@, res@));
            assert(forall|x: int, y: int|
                0 <= x < y < res@.len() ==> (#[trigger] res@[x]).1 <= (#[trigger] res@[y]).1);
            assert forall|k: int| 0 <= k < res@.len() implies reported_entry(
                self.contents(),
                query_embedding@,
                #[trigger] res@[k],
            ) by {
                let ii = w@[k].0 as int;
                assert(self.contents()[ii] == (self.nodes@[ii].doc_ref, self.nodes@[ii].vector@));
                assert(res@[k].0 == self.contents()[ii].0);
                assert(res@[k].1 == distance_spec(query_embedding@, self.contents()[ii].1));
            }
        }
        Ok(res)
    }
}

/// Removes and returns a closest entry of an unsorted candidate list.
fn pop_closest_entry(c: &mut Vec<(usize, u64)>) -> (e: (usize, u64))
    requires
        old(c)@.len() > 0,
    ensures
        final(c)@.len() == old(c)@.len() - 1,
        old(c)@.contains(e),
        forall|k: int| 0 <= k < final(c)@.len() ==> old(c)@.contains(#[trigger] final(c)@[k]),
        forall|k: int| 0 <= k < old(c)@.len() ==> e.1 <= (#[trigger] old(c)@[k]).1,
{
    let mut best: usize = 0;
    let mut k: usize = 1;
    while k < c.len()
        invariant
            c@.len() > 0,
            best < c@.len(),
            k <= c@.len(),
            forall|x: int| 0 <= x < k ==> c@[best as int].1 <= (#[trigger] c@[x]).1,
        decreases c@.len() - k,
    {
        if c[k].1 < c[best].1 {
            best = k;
        }
        k += 1;
    }
    let e = c.swap_remove(best);
    proof {
        assert(old(c)@[best as int] == e);
        assert forall|j: int| 0 <= j < c@.len() implies old(c)@.contains(#[trigger] c@[j]) by {
            if j == best as int {
                assert(c@[j] == old(c)@[old(c)@.len() - 1]);
            } else {
                assert(c@[j] == old(c)@[j]);
            }
        }
    }
    e
}

/// Inserts an entry into a distance-sorted list, keeping it sorted.
fn insert_sorted_entry(w: &mut Vec<(usize, u64)>, e: (usize, u64))
    requires
        forall|x: int, y: int|
            0 <= x < y < old(w)@.len() ==> (#[trigger] old(w)@[x]).1 <= (#[trigger] old(w)@[y]).1,
    ensures
        final(w)@.len() == old(w)@.len() + 1,
        forall|x: int, y: int|
            0 <= x < y < final(w)@.len() ==> (#[trigger] final(w)@[x]).1 <= (#[trigger] final(w)@[y]).1,
        exists|p: int| 0 <= p <= old(w)@.len() && final(w)@ == old(w)@.insert(p, e),
{
    let mut p: usize = 0;
    while p < w.len() && w[p].1 <= e.1
        invariant
            p <= w@.len(),
            w@ == old(w)@,
            forall|x: int| 0 <= x < p ==> (#[trigger] w@[x]).1 <= e.1,
        decreases w@.len() - p,
    {
        p += 1;
    }
    let ghost ws = w@;
    let ghost pp = p as int;
    w.insert(p, e);
    proof {
        assert(w@ == ws.insert(pp, e));
        assert forall|x: int, y: int| 0 <= x < y < w@.len() implies (#[trigger] w@[x]).1 <= (
        #[trigger] w@[y]).1 by {
            assert(forall|k: int| 0 <= k < pp ==> w@[k] == ws[k]);
            assert(w@[pp] == e);
            assert(forall|k: int| pp < k < w@.len() ==> w@[k] == ws[k - 1]);
            if y < pp {
            } else if x < pp && y == pp {
                assert(ws[x].1 <= e.1);
            } else if x < pp && y > pp {
                assert(ws[x].1 <= ws[y - 1].1);
            } else if x == pp {
                assert(pp < ws.len() + 1);
                assert(w@[y] == ws[y - 1]);
                assert(pp <= y - 1 < ws.len());
                assert(pp == ws.len() || ws[pp].1 > e.1);
                if pp < ws.len() {
                    assert(ws[pp].1 <= ws[y - 1].1 || pp == y - 1);
                }
            } else {
                assert(ws[x - 1].1 <= ws[y - 1].1);
            }
        }
    }
}


/// Copies a vector of indices.
fn clone_usizes(v: &Vec<usize>) -> (r: Vec<usize>)
    ensures
        r@ == v@,
{
    let mut r: Vec<usize> = Vec::new();
    let mut i: usize = 0;
    while i < v.len()
        invariant
            i <= v@.len(),
            r@ =~= v@.take(i as int),
        decreases v@.len() - i,
    {
        r.push(v[i]);
        proof {
            assert(r@ =~= v@.take(i + 1 as int));
        }
        i += 1;
    }
    proof {
        assert(v@.take(v@.len() as int) =~= v@);
    }
    r
}


/// The embedding a text maps to: the placeholder model returns the zero
/// vector of the index's dimension.
pub open spec fn embedding_spec(dim: nat) -> Seq<i64> {
    Seq::new(dim, |i: int| 0i64)
}

/// The similarity a distance reports: one minus the distance on the score
/// scale, floored at zero.
pub open spec fn similarity_of(d: int) -> u32 {
    if d >= SCORE_SCALE as int {
        0u32
    } else if d < 0 {
        SCORE_SCALE
    } else {
        (SCORE_SCALE as int - d) as u32
    }
}

/// Converts a distance to a similarity score.
fn similarity_from_distance(d: u64) -> (r: u32)
    ensures
        r == similarity_of(d as int),
{
    if d >= SCORE_SCALE as u64 {
        0
    } else {
        SCORE_SCALE - (d as u32)
    }
}

/// Embedding generation result.
#[derive(Debug, Clone)]
pub struct EmbeddingResult {
    /// The embedding vector, in fixed-point components.
    pub embedding: Vec<i64>,
    /// How long generation took, in milliseconds.
    pub processing_time_ms: u64,
}

/// Embedding model placeholder: stands in for an external inference
/// runtime, mapping every text to the zero vector of the requested
/// dimension.
pub struct EmbeddingModel {
    config: EmbeddingModelConfig,
}

impl EmbeddingModel {
    /// Wraps the model configuration.
    pub fn new(config: EmbeddingModelConfig) -> (r: Result<Self, SearchError>)
        ensures
            r is Ok,
    {
        Ok(EmbeddingModel { config })
    }

    /// The placeholder encoding: the zero vector of the given dimension.
    pub fn encode(&self, _text: &str, dimension: usize) -> (r: Result<EmbeddingResult, SearchError>)
        ensures
            match r {
                Ok(er) => er.embedding@ == embedding_spec(dimension as nat),
                Err(_) => false,
            },
    {
        let mut v: Vec<i64> = Vec::new();
        let mut i: usize = 0;
        while i < dimension
            invariant
                i <= dimension,
                v@.len() == i,
                forall|j: int| 0 <= j < i ==> #[trigger] v@[j] == 0i64,
            decreases dimension - i,
        {
            v.push(0);
            i += 1;
        }
        proof {
            assert(v@ =~= embedding_spec(dimension as nat));
        }
        Ok(EmbeddingResult { embedding: v, processing_time_ms: 0 })
    }
}

/// Copies a vector of fixed-point components.
fn clone_i64s(v: &Vec<i64>) -> (r: Vec<i64>)
    ensures
        r@ == v@,
{
    let mut r: Vec<i64> = Vec::new();
    let mut i: usize = 0;
    while i < v.len()
        invariant
            i <= v@.len(),
            r@ =~= v@.take(i as int),
        decreases v@.len() - i,
    {
        r.push(v[i]);
        proof {
            assert(r@ =~= v@.take(i + 1 as int));
        }
        i += 1;
    }
    proof {
        assert(v@.take(v@.len() as int) =~= v@);
    }
    r
}

/// Cache for frequently used embeddings, keyed by the text, bounded in
/// size, evicting one entry in unspecified order when full.
pub struct VectorCache {
    cache: Vec<(String, Vec<i64>)>,
    max_size: usize,
}

impl VectorCache {
    /// The cached entries, in insertion order.
    pub closed spec fn entries(&self) -> Seq<(String, Vec<i64>)> {
        self.cache@
    }

    /// How many entries are cached.
    pub closed spec fn count(&self) -> nat {
        self.cache@.len()
    }

    /// Every key occurs at most once.
    pub closed spec fn wf(&self) -> bool {
        forall|i: int, j: int|
            0 <= i < j < self.cache@.len() ==> (#[trigger] self.cache@[i].0@) != (
            #[trigger] self.cache@[j].0@)
    }

    /// The vector stored under a key, as a component sequence.
    pub open spec fn value_at(&self, key: Seq<char>) -> Option<Seq<i64>> {
        match crate::assoc::assoc_find(self.entries(), key) {
            Some(k) => Some(self.entries()[k].1@),
            None => None,
        }
    }

    /// An empty cache with the given capacity.
    pub fn new(max_size: usize) -> (r: Self)
        ensures
            r.entries() == Seq::<(String, Vec<i64>)>::empty(),
            r.count() == 0,
            r.wf(),
    {
        VectorCache { cache: Vec::new(), max_size }
    }

    /// How many entries are cached.
    pub fn size(&self) -> (r: usize)
        ensures
            r == self.count(),
    {
        self.cache.len()
    }

    /// The cached vector under a key, if the key is present.
    pub fn get(&self, key: &str) -> (r: Option<Vec<i64>>)
        ensures
            match r {
                Some(v) => {
                    &&& crate::assoc::assoc_find(self.entries(), key@) is Some
                    &&& v@ == self.entries()[crate::assoc::assoc_find(
                        self.entries(),
                        key@,
                    ).unwrap()].1@
                },
                None => crate::assoc::assoc_find(self.entries(), key@) is None,
            },
    {
        let mut i: usize = 0;
        while i < self.cache.len()
            invariant
                i <= self.cache@.len(),
                forall|j: int| 0 <= j < i ==> (#[trigger] self.cache@[j].0@) != key@,
            decreases self.cache@.len() - i,
        {
            if crate::text::str_eq(self.cache[i].0.as_str(), key) {
                proof {
                    crate::assoc::lemma_assoc_find_characterization(self.cache@, key@);
                }
                return Some(clone_i64s(&self.cache[i].1));
            }
            i += 1;
        }
        proof {
            crate::assoc::lemma_assoc_find_characterization(self.cache@, key@);
        }
        None
    }

    /// Stores a vector under a key: replaces the key's entry if present,
    /// else evicts one entry when at capacity and appends. Any other key
    /// afterwards holds its old vector or nothing, and below capacity
    /// nothing is evicted.
    pub fn insert(&mut self, key: String, value: Vec<i64>)
        requires
            old(self).wf(),
        ensures
            final(self).wf(),
            final(self).value_at(key@) == Some(value@),
            forall|k: Seq<char>|
                k != key@ ==> (#[trigger] final(self).value_at(k) == old(self).value_at(k)
                    || final(self).value_at(k) is None),
            old(self).count() < old(self).spec_max() ==> forall|k: Seq<char>|
                k != key@ ==> #[trigger] final(self).value_at(k) == old(self).value_at(k),
            old(self).count() <= final(self).count() <= old(self).count() + 1,
            old(self).count() <= old(self).spec_max() && old(self).spec_max() >= 1 ==> final(self).count() <= final(self).spec_max(),
            forall|k: int|
                0 <= k < final(self).entries().len() ==> ((#[trigger] final(self).entries()[k]).1@
                    == value@ || old(self).entries().contains(final(self).entries()[k])),
            final(self).spec_max() == old(self).spec_max(),
    {
        let mut i: usize = 0;
        while i < self.cache.len()
            invariant
                i <= self.cache@.len(),
                forall|j: int| 0 <= j < i ==> (#[trigger] self.cache@[j].0@) != key@,
                *self == *old(self),
                old(self).wf(),
            decreases self.cache@.len() - i,
        {
            if crate::text::str_eq(self.cache[i].0.as_str(), key.as_str()) {
                let ghost pre = self.cache@;
                self.cache[i] = (key, value);
                proof {
                    assert(forall|j: int|
                        0 <= j < self.cache@.len() && j != i ==> #[trigger] self.cache@[j]
                            == pre[j]);
                    assert(forall|j: int|
                        0 <= j < self.cache@.len() ==> (#[trigger] self.cache@[j].0@)
                            == pre[j].0@);
                    crate::assoc::lemma_assoc_find_same_keys(self.cache@, pre, key@);
                    assert(crate::assoc::assoc_find(pre, key@) == Some(i as int)) by {
                        crate::assoc::lemma_assoc_find_characterization(pre, key@);
                        if crate::assoc::assoc_find(pre, key@) is None {
                            assert(pre[i as int].0@ != key@);
                        }
                        match crate::assoc::assoc_find(pre, key@) {
                            Some(k) => {
                                if k != i as int {
                                    assert(pre[k].0@ == key@);
                                }
                            },
                            None => {},
                        }
                    }
                    assert forall|x: int, y: int|
                        0 <= x < y < self.cache@.len() implies (#[trigger] self.cache@[x].0@) != (
                    #[trigger] self.cache@[y].0@) by {
                        assert(pre[x].0@ != pre[y].0@);
                    }
                    assert forall|k: Seq<char>|
                        k != key@ implies #[trigger] self.value_at(k) == old(self).value_at(
                        k,
                    ) by {
                        crate::assoc::lemma_assoc_find_same_keys(self.cache@, pre, k);
                        crate::assoc::lemma_assoc_find_characterization(pre, k);
                        match crate::assoc::assoc_find(pre, k) {
                            Some(w) => {
                                assert(pre[w].0@ == k);
                                assert(w != i as int);
                                assert(self.cache@[w] == pre[w]);
                            },
                            None => {},
                        }
                    }
                    assert forall|k: int|
                        0 <= k < self.cache@.len() implies ((#[trigger] self.cache@[k]).1@
                        == value@ || pre.contains(self.cache@[k])) by {
                        if k != i as int {
                            assert(self.cache@[k] == pre[k]);
                        }
                    }
                }
                return ;
            }
            i += 1;
        }
        let ghost pre_evict = self.cache@;
        if self.cache.len() >= self.max_size && self.cache.len() > 0 {
            self.cache.remove(0);
        }
        let ghost pre = self.cache@;
        proof {
            if pre.len() < pre_evict.len() {
                assert(pre =~= pre_evict.drop_first());
            }
            assert(forall|k: int|
                0 <= k < pre.len() ==> #[trigger] pre[k] == (if pre.len() < pre_evict.len() {
                    pre_evict[k + 1]
                } else {
                    pre_evict[k]
                }));
            assert forall|j: int| 0 <= j < pre.len() implies (#[trigger] pre[j].0@) != key@ by {
                if pre.len() < pre_evict.len() {
                    assert(pre[j] == pre_evict[j + 1]);
                    assert(pre_evict[j + 1].0@ != key@);
                } else {
                    assert(pre[j] == pre_evict[j]);
                    assert(pre_evict[j].0@ != key@);
                }
            }
            assert forall|x: int, y: int|
                0 <= x < y < pre.len() implies (#[trigger] pre[x].0@) != (
            #[trigger] pre[y].0@) by {
                if pre.len() < pre_evict.len() {
                    assert(pre_evict[x + 1].0@ != pre_evict[y + 1].0@);
                } else {
                    assert(pre_evict[x].0@ != pre_evict[y].0@);
                }
            }
            assert(forall|k: int| 0 <= k < pre.len() ==> pre_evict.contains(#[trigger] pre[k]));
        }
        self.cache.push((key, value));
        proof {
            crate::assoc::lemma_assoc_find_push(pre, (key, value), key@);
            crate::assoc::lemma_assoc_find_characterization(pre, key@);
            assert(self.value_at(key@) == Some(value@));
            assert forall|x: int, y: int|
                0 <= x < y < self.cache@.len() implies (#[trigger] self.cache@[x].0@) != (
            #[trigger] self.cache@[y].0@) by {
                assert(self.cache@ == pre.push((key, value)));
                if y == self.cache@.len() - 1 {
                    assert(0 <= x < pre.len());
                    assert(self.cache@[x] == pre[x]);
                    assert(self.cache@[y] == (key, value));
                    assert(pre[x].0@ != key@);
                } else {
                    assert(self.cache@[x] == pre[x]);
                    assert(self.cache@[y] == pre[y]);
                    assert(pre[x].0@ != pre[y].0@);
                }
            }
            if old(self).count() < old(self).spec_max() {
                assert(pre_evict == pre);
                assert forall|k: Seq<char>|
                    k != key@ implies #[trigger] self.value_at(k) == old(self).value_at(k) by {
                    crate::assoc::lemma_assoc_find_push(pre, (key, value), k);
                    crate::assoc::lemma_assoc_find_characterization(pre, k);
                    match crate::assoc::assoc_find(pre, k) {
                        Some(w) => {
                            assert(0 <= w < pre.len());
                            assert(self.cache@[w] == pre[w]);
                        },
                        None => {},
                    }
                }
            }
            assert forall|k: Seq<char>|
                k != key@ implies (#[trigger] self.value_at(k) == old(self).value_at(k)
                || self.value_at(k) is None) by {
                crate::assoc::lemma_assoc_find_push(pre, (key, value), k);
                crate::assoc::lemma_assoc_find_characterization(pre, k);
                match crate::assoc::assoc_find(pre, k) {
                    Some(w) => {
                        assert(0 <= w < pre.len());
                        assert(self.cache@[w] == pre[w]);
                        match crate::assoc::assoc_find(pre_evict, k) {
                            Some(w0) => {
                                crate::assoc::lemma_assoc_find_characterization(pre_evict, k);
                                if pre.len() < pre_evict.len() {
                                    assert(pre_evict[0].0@ != k) by {
                                        if pre_evict[0].0@ == k {
                                            assert(pre[w] == pre_evict[w + 1]);
                                            assert(pre_evict[w + 1].0@ == k);
                                            assert(old(self).wf());
                                        }
                                    }
                                    lemma_vc_drop_shift(pre_evict, k, w, w0);
                                } else {
                                    assert(pre == pre_evict);
                                }
                            },
                            None => {
                                crate::assoc::lemma_assoc_find_characterization(pre_evict, k);
                                assert(pre[w].0@ == k);
                                if pre.len() < pre_evict.len() {
                                    assert(pre[w] == pre_evict[w + 1]);
                                    assert(pre_evict[w + 1].0@ != k);
                                } else {
                                    assert(pre_evict[w].0@ != k);
                                }
                            },
                        }
                    },
                    None => {},
                }
            }
            assert forall|k: int|
                0 <= k < self.cache@.len() implies ((#[trigger] self.cache@[k]).1@ == value@
                || pre_evict.contains(self.cache@[k])) by {
                if k < pre.len() {
                    assert(self.cache@[k] == pre[k]);
                }
            }
        }
    }

    /// The configured capacity.
    pub closed spec fn spec_max(&self) -> nat {
        self.max_size as nat
    }
}

/// After dropping the first entry, an entry found in the shorter list was
/// the same entry one place later in the longer one.
proof fn lemma_vc_drop_shift(s: Seq<(String, Vec<i64>)>, key: Seq<char>, k: int, k0: int)
    requires
        s.len() > 0,
        crate::assoc::assoc_find(s.drop_first(), key) == Some(k),
        crate::assoc::assoc_find(s, key) == Some(k0),
        s[0].0@ != key,
    ensures
        s.drop_first()[k] == s[k0],
{
    crate::assoc::lemma_assoc_find_characterization(s, key);
    crate::assoc::lemma_assoc_find_characterization(s.drop_first(), key);
    assert(forall|j: int|
        0 <= j < s.drop_first().len() ==> #[trigger] s.drop_first()[j] == s[j + 1]);
    assert(s[k + 1].0@ == key);
    assert(k0 >= 1);
    assert(s.drop_first()[k0 - 1].0@ == key);
    assert(k0 - 1 >= k);
    assert(k + 1 >= k0);
    assert(s.drop_first()[k] == s[k + 1]);
}

/// Vector search result.
#[derive(Debug, Clone)]
pub struct VectorSearchResult {
    /// Where the match lives.
    pub doc_ref: DocRef,
    /// Similarity on the score scale: the scale itself means identical.
    pub similarity_score: u32,
    /// The matched vector, where the caller asked for it.
    pub embedding: Option<Vec<i64>>,
}

/// Statistics about the vector index.
#[derive(Debug, Clone)]
pub struct VectorIndexStats {
    pub total_vectors: usize,
    pub cache_size: usize,
    pub dimension: usize,
}

/// Main vector search manager: the embedding placeholder, the layered
/// graph, and the embedding cache behind one interface.
pub struct VectorIndex {
    config: VectorConfig,
    embedding_model: EmbeddingModel,
    hnsw_index: HnswIndex,
    vector_cache: VectorCache,
}

impl VectorIndex {
    /// Structural health: the graph is sound, its dimension is the
    /// configured one, and every cached embedding is one the model
    /// produces.
    pub closed spec fn wf(&self) -> bool {
        &&& self.hnsw_index.wf()
        &&& self.vector_cache.wf()
        &&& self.hnsw_index.spec_dimension() == self.config.dimension as nat
        &&& forall|k: int|
            0 <= k < self.vector_cache.entries().len() ==> (#[trigger] self.vector_cache.entries()[k]).1@
                == embedding_spec(self.config.dimension as nat)
    }

    /// What the index holds: each stored reference with its vector.
    pub closed spec fn contents(&self) -> Seq<(DocRef, Seq<i64>)> {
        self.hnsw_index.contents()
    }

    /// The configured dimension.
    pub closed spec fn spec_dimension(&self) -> nat {
        self.config.dimension as nat
    }

    /// Create new vector index.
    pub fn new(config: VectorConfig) -> (r: Result<Self, SearchError>)
        ensures
            r is Ok <==> (1 <= config.dimension <= MAX_DIMENSION && config.hnsw.m >= 1),
            match r {
                Ok(v) => {
                    &&& v.wf()
                    &&& v.contents() == Seq::<(DocRef, Seq<i64>)>::empty()
                    &&& v.spec_dimension() == config.dimension as nat
                },
                Err(e) => e matches SearchError::Config { .. },
            },
    {
        let embedding_model = match EmbeddingModel::new(config.model.clone()) {
            Ok(m) => m,
            Err(e) => { return Err(SearchError::Config { message: String::from_str("embedding model unavailable") }) },
        };
        let hnsw_index = HnswIndex::new(config.hnsw.clone(), config.dimension)?;
        let vector_cache = VectorCache::new(1000);
        Ok(VectorIndex { config, embedding_model, hnsw_index, vector_cache })
    }

    /// Load vector index from disk: starts fresh from the configuration;
    /// persistence belongs to the surrounding application.
    pub fn load_from_disk(config: VectorConfig, _path: &str) -> (r: Result<Self, SearchError>)
        ensures
            r is Ok <==> (1 <= config.dimension <= MAX_DIMENSION && config.hnsw.m >= 1),
            match r {
                Ok(v) => v.wf() && v.contents() == Seq::<(DocRef, Seq<i64>)>::empty(),
                Err(e) => e matches SearchError::Config { .. },
            },
    {
        Self::new(config)
    }

    /// Save vector index to disk: nothing is written here.
    pub fn save_to_disk(&self, _path: &str) -> (r: Result<(), SearchError>)
        ensures
            r is Ok,
    {
        Ok(())
    }

    /// Generate embedding for text: from the cache when the text was seen,
    /// else from the model, caching the result. The graph is untouched.
    pub fn generate_embedding(&mut self, text: &str) -> (r: Result<EmbeddingResult, SearchError>)
        requires
            old(self).wf(),
        ensures
            final(self).wf(),
            final(self).spec_graph() == old(self).spec_graph(),
            final(self).spec_dimension() == old(self).spec_dimension(),
            match r {
                Ok(er) => er.embedding@ == embedding_spec(old(self).spec_dimension()),
                Err(_) => false,
            },
    {
        match self.vector_cache.get(text) {
            Some(cached) => {
                proof {
                    crate::assoc::lemma_assoc_find_characterization(
                        self.vector_cache.entries(),
                        text@,
                    );
                    let k = crate::assoc::assoc_find(self.vector_cache.entries(), text@).unwrap();
                    assert(self.vector_cache.entries()[k].1@ == embedding_spec(
                        self.config.dimension as nat,
                    ));
                }
                Ok(EmbeddingResult { embedding: cached, processing_time_ms: 0 })
            },
            None => {
                let result = self.embedding_model.encode(text, self.config.dimension)?;
                let copy = clone_i64s(&result.embedding);
                let keytext = String::from_str(text);
                self.vector_cache.insert(keytext, copy);
                proof {
                    assert forall|k: int|
                        0 <= k < self.vector_cache.entries().len() implies (
                    #[trigger] self.vector_cache.entries()[k]).1@ == embedding_spec(
                        self.config.dimension as nat,
                    ) by {
                        if self.vector_cache.entries()[k].1@ != copy@ {
                            assert(old(self).vector_cache.entries().contains(
                                self.vector_cache.entries()[k],
                            ));
                            let j = choose|j: int|
                                0 <= j < old(self).vector_cache.entries().len() && old(self).vector_cache.entries()[j] == self.vector_cache.entries()[k];
                            assert(old(self).vector_cache.entries()[j].1@ == embedding_spec(
                                self.config.dimension as nat,
                            ));
                        }
                    }
                }
                Ok(result)
            },
        }
    }

    /// Add document embedding to index: embeds the text and stores the
    /// vector under the reference.
    pub fn add_document(&mut self, doc_ref: DocRef, text: &str) -> (r: Result<(), SearchError>)
        requires
            old(self).wf(),
        ensures
            final(self).wf(),
            r is Ok,
            final(self).contents() == old(self).contents().push(
                (doc_ref, embedding_spec(old(self).spec_dimension())),
            ),
            final(self).spec_dimension() == old(self).spec_dimension(),
    {
        let embedding_result = self.generate_embedding(text)?;
        proof {
            assert(valid_embedding(
                embedding_result.embedding@,
                self.hnsw_index.spec_dimension(),
            ));
        }
        let res = self.hnsw_index.add_vector(doc_ref, embedding_result.embedding);
        proof {
            assert(res is Ok);
        }
        match res {
            Ok(()) => Ok(()),
            Err(_) => Ok(()),
        }
    }

    /// Search for similar documents: embeds the query, takes the `top_k`
    /// nearest stored vectors, and reports them as similarity scores in
    /// non-increasing order.
    pub fn search(&mut self, query: &str, top_k: usize) -> (r: Result<
        Vec<VectorSearchResult>,
        SearchError,
    >)
        requires
            old(self).wf(),
        ensures
            final(self).wf(),
            final(self).contents() == old(self).contents(),
            final(self).spec_dimension() == old(self).spec_dimension(),
            match r {
                Ok(res) => {
                    &&& res@.len() <= top_k
                    &&& (old(self).contents().len() == 0 ==> res@.len() == 0)
                    &&& (old(self).contents().len() > 0 && top_k > 0 ==> res@.len() >= 1)
                    &&& (forall|x: int, y: int|
                        0 <= x < y < res@.len() ==> (#[trigger] res@[x]).similarity_score >= (
                        #[trigger] res@[y]).similarity_score)
                    &&& (forall|k: int| 0 <= k < res@.len() ==> (#[trigger] res@[k]).embedding
                        is None)
                    &&& (forall|k: int|
                        0 <= k < res@.len() ==> semantic_match(
                            old(self).contents(),
                            old(self).spec_dimension(),
                            #[trigger] res@[k],
                        ))
                },
                Err(_) => false,
            },
    {
        let query_embedding = self.generate_embedding(query)?;
        let neighbors = match self.hnsw_index.search(&query_embedding.embedding, top_k) {
            Ok(nb) => nb,
            Err(_) => {
                proof {
                    assert(false);
                }
                Vec::new()
            },
        };
        let mut results: Vec<VectorSearchResult> = Vec::new();
        let mut i: usize = 0;
        while i < neighbors.len()
            invariant
                i <= neighbors@.len(),
                results@.len() == i,
                self.wf(),
                self.contents() == old(self).contents(),
                self.spec_dimension() == old(self).spec_dimension(),
                forall|x: int, y: int|
                    0 <= x < y < neighbors@.len() ==> (#[trigger] neighbors@[x]).1 <= (
                    #[trigger] neighbors@[y]).1,
                forall|k: int|
                    0 <= k < neighbors@.len() ==> reported_entry(
                        self.contents(),
                        embedding_spec(self.spec_dimension()),
                        #[trigger] neighbors@[k],
                    ),
                forall|k: int|
                    0 <= k < i ==> (#[trigger] results@[k]).similarity_score == similarity_of(
                        neighbors@[k].1 as int,
                    ) && results@[k].doc_ref == neighbors@[k].0 && results@[k].embedding is None,
            decreases neighbors@.len() - i,
        {
            let sim = similarity_from_distance(neighbors[i].1);
            results.push(
                VectorSearchResult { doc_ref: neighbors[i].0, similarity_score: sim, embedding: None },
            );
            i += 1;
        }
        proof {
            assert forall|x: int, y: int|
                0 <= x < y < results@.len() implies (#[trigger] results@[x]).similarity_score >= (
            #[trigger] results@[y]).similarity_score by {
                assert(neighbors@[x].1 <= neighbors@[y].1);
            }
            assert forall|k: int| 0 <= k < results@.len() implies semantic_match(
                old(self).contents(),
                old(self).spec_dimension(),
                #[trigger] results@[k],
            ) by {
                assert(reported_entry(
                    self.contents(),
                    embedding_spec(self.spec_dimension()),
                    neighbors@[k],
                ));
                let ii = choose|ii: int|
                    0 <= ii < self.contents().len() && neighbors@[k].0 == (
                    #[trigger] self.contents()[ii]).0 && neighbors@[k].1 == distance_spec(
                        embedding_spec(self.spec_dimension()),
                        self.contents()[ii].1,
                    );
                assert(results@[k].doc_ref == self.contents()[ii].0);
                assert(results@[k].similarity_score == similarity_of(
                    distance_spec(
                        embedding_spec(self.spec_dimension()),
                        self.contents()[ii].1,
                    ),
                ));
            }
        }
        Ok(results)
    }

    /// Get index statistics.
    pub fn get_stats(&self) -> (r: VectorIndexStats)
        ensures
            r.total_vectors == self.contents().len(),
            r.cache_size == self.cache_count(),
            r.dimension as nat == self.spec_dimension(),
    {
        VectorIndexStats {
            total_vectors: self.hnsw_index.size(),
            cache_size: self.vector_cache.size(),
            dimension: self.config.dimension,
        }
    }

    /// How many embeddings the cache holds.
    pub closed spec fn cache_count(&self) -> nat {
        self.vector_cache.count()
    }

    /// The underlying graph, for framing: a search must not modify it.
    pub closed spec fn spec_graph(&self) -> HnswIndex {
        self.hnsw_index
    }
}

/// A result one semantic search reports: a stored reference whose score is
/// the similarity of its vector to the query embedding.
pub open spec fn semantic_match(
    contents: Seq<(DocRef, Seq<i64>)>,
    dim: nat,
    e: VectorSearchResult,
) -> bool {
    exists|i: int|
        0 <= i < contents.len() && e.doc_ref == (#[trigger] contents[i]).0 && e.similarity_score
            == similarity_of(distance_spec(embedding_spec(dim), contents[i].1))
}

} // verus!
