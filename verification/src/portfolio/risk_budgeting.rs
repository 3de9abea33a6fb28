//! Hierarchical risk parity: assets are merged pair by pair into a tree of
//! clusters, and capital is split along the tree; and risk budgets with
//! turnover constraints.
use crate::math;
use crate::math::SignedRatio;
use crate::portfolio::budget::MemoryBudget;
use crate::portfolio::turnover_penalty;
use crate::portfolio::turnover_penalty::measure_turnover;
use vstd::prelude::*;

verus! {

/// Maximum number of assets supported to enforce the memory limit
pub const MAX_ASSETS: usize = 500;

/// Memory budget in bytes (2GB allocated for portfolio construction)
pub const MEMORY_BUDGET_BYTES: u64 = 2_147_483_648;

/// Units of one
pub const ONE: i64 = 100_000_000;

/// Represents a cluster node in the hierarchical tree
#[derive(Debug)]
pub struct ClusterNode {
    pub id: usize,
    pub left: Option<Box<ClusterNode>>,
    pub right: Option<Box<ClusterNode>>,
    pub distance: i64,
    pub size: usize,
}

/// One merge of two clusters: the second joins the first.
#[derive(Debug, Clone, Copy, PartialEq, Eq, Structural)]
pub struct Merge {
    pub kept: usize,
    pub joined: usize,
    pub distance: i64,
}

/// Bytes that the correlations of so many assets take.
pub open spec fn matrix_memory(n: int) -> int {
    n * n * 8 + n * 8
}

/// The correlation of two assets, one where either is unknown.
pub open spec fn correlation(matrix: Seq<i64>, n: int, i: int, j: int) -> i64 {
    if i >= n || j >= n || i * n + j >= matrix.len() {
        ONE
    } else {
        matrix[i * n + j]
    }
}

/// The correlation of the clusters at two places.
pub open spec fn pair_distance(matrix: Seq<i64>, n: int, active: Seq<usize>, a: int, b: int) -> i64 {
    correlation(matrix, n, active[a] as int, active[b] as int)
}

/// Whether one pair of places comes before another.
pub open spec fn pair_before(c: int, d: int, a: int, b: int) -> bool {
    c < a || (c == a && d < b)
}

/// The pair of least distance, and of those with that distance the first.
pub open spec fn closest(matrix: Seq<i64>, n: int, active: Seq<usize>, a: int, b: int) -> bool {
    &&& 0 <= a < b < active.len()
    &&& forall|c: int, d: int|
        0 <= c < d < active.len() ==> #[trigger] pair_distance(matrix, n, active, c, d)
            >= pair_distance(matrix, n, active, a, b)
    &&& forall|c: int, d: int|
        0 <= c < d < active.len() && pair_before(c, d, a, b) ==> #[trigger] pair_distance(
            matrix,
            n,
            active,
            c,
            d,
        ) > pair_distance(matrix, n, active, a, b)
}

/// Merges that join the closest pair of clusters, then the closest pair of
/// what is left, down to a single cluster.
pub open spec fn links(matrix: Seq<i64>, n: int, active: Seq<usize>, merges: Seq<Merge>) -> bool
    decreases active.len(),
{
    if active.len() <= 1 {
        merges.len() == 0
    } else {
        &&& merges.len() > 0
        &&& exists|a: int, b: int| #[trigger]
            closest(matrix, n, active, a, b) && merges[0] == (Merge {
                kept: active[a],
                joined: active[b],
                distance: pair_distance(matrix, n, active, a, b),
            }) && links(matrix, n, active.remove(b), merges.subrange(1, merges.len() as int))
    }
}

/// The assets of a cluster, left to right: the leaves that name an asset.
pub open spec fn assets_of(node: ClusterNode, n: int) -> Seq<usize>
    decreases node,
{
    if node.left is None && node.right is None {
        if node.id < n {
            seq![node.id]
        } else {
            Seq::empty()
        }
    } else {
        (match node.left {
            Some(l) => assets_of(*l, n),
            None => Seq::empty(),
        }) + (match node.right {
            Some(r) => assets_of(*r, n),
            None => Seq::empty(),
        })
    }
}

/// A cluster of a single asset.
pub open spec fn leaf(i: usize) -> ClusterNode {
    ClusterNode { id: i, left: None, right: None, distance: 0, size: 1 }
}

/// A cluster of two others.
pub open spec fn joined(id: usize, left: Box<ClusterNode>, right: Box<ClusterNode>, distance: i64) -> ClusterNode {
    ClusterNode {
        id,
        left: Some(left),
        right: Some(right),
        distance,
        size: (left.size + right.size) as usize,
    }
}

/// Clusters by the asset that stands for them, after merges: each merge puts
/// the cluster of both in the place of the first, under the next free id.
pub open spec fn forest_after(
    forest: Seq<Option<Box<ClusterNode>>>,
    merges: Seq<Merge>,
    next_id: int,
) -> Seq<Option<Box<ClusterNode>>>
    decreases merges.len(),
{
    if merges.len() == 0 {
        forest
    } else {
        let m = merges[0];
        let node = joined(
            next_id as usize,
            forest[m.kept as int]->0,
            forest[m.joined as int]->0,
            m.distance,
        );
        forest_after(
            forest.update(m.joined as int, None).update(m.kept as int, Some(Box::new(node))),
            merges.subrange(1, merges.len() as int),
            next_id + 1,
        )
    }
}

/// Every asset in a cluster of its own.
pub open spec fn leaves(n: int) -> Seq<Option<Box<ClusterNode>>> {
    Seq::new(n as nat, |i: int| Some(Box::new(leaf(i as usize))))
}

/// The assets in their order.
pub open spec fn places(n: int) -> Seq<usize> {
    Seq::new(n as nat, |i: int| i as usize)
}

/// Whether a place holds a cluster exactly where it is active.
pub open spec fn stands_for(forest: Seq<Option<Box<ClusterNode>>>, active: Seq<usize>, n: int) -> bool {
    &&& forest.len() == n
    &&& active.no_duplicates()
    &&& forall|k: int| 0 <= k < active.len() ==> 0 <= (#[trigger] active[k]) < n
    &&& forall|i: int| 0 <= i < n ==> ((#[trigger] forest[i]) is Some <==> active.contains(i as usize))
}

/// Hierarchical Risk Parity
pub struct HierarchicalRiskParity {
    /// Correlation matrix stored in row-major order
    pub correlation_matrix: Vec<i64>,
    /// Asset identifiers
    pub asset_ids: Vec<usize>,
    /// Number of assets
    pub n_assets: usize,
    /// Cached dendrogram root
    pub dendrogram_root: Option<Box<ClusterNode>>,
}

impl HierarchicalRiskParity {
    pub open spec fn wf(&self) -> bool {
        &&& self.n_assets <= MAX_ASSETS
        &&& self.asset_ids.len() == self.n_assets
        &&& self.correlation_matrix.len() == self.n_assets * self.n_assets
        &&& self.dendrogram_root matches Some(root) ==> assets_of(
            *root,
            self.n_assets as int,
        ).len() == self.n_assets
    }

    /// Create a new HRP instance with memory validation
    pub fn new(correlation_matrix: &Vec<i64>, asset_ids: &Vec<usize>, budget: &mut MemoryBudget) -> (r:
        Result<Self, &'static str>)
        requires
            old(budget).wf(),
        ensures
            final(budget).wf(),
            ({
                let n = asset_ids.len() as int;
                let memory = matrix_memory(n) as u64;
                match r {
                    Ok(h) => {
                        &&& n <= MAX_ASSETS
                        &&& correlation_matrix.len() == n * n
                        &&& old(budget).admits(memory)
                        &&& *final(budget) == (MemoryBudget {
                            used: (old(budget).used + memory) as u64,
                            ..*old(budget)
                        })
                        &&& h.wf()
                        &&& h.correlation_matrix@ == correlation_matrix@
                        &&& h.asset_ids@ == asset_ids@
                        &&& h.n_assets == n
                        &&& h.dendrogram_root is None
                    },
                    Err(e) => {
                        &&& *final(budget) == *old(budget)
                        &&& if n > MAX_ASSETS {
                            e@ == "Asset count exceeds maximum limit for 8GB RAM constraint"@
                        } else if correlation_matrix.len() != n * n {
                            e@ == "Correlation matrix dimension mismatch"@
                        } else {
                            &&& !old(budget).admits(memory)
                            &&& e@ == "Memory budget exceeded for HRP construction"@
                        }
                    },
                }
            }),
    {
        let n: usize = asset_ids.len();
        if n > MAX_ASSETS {
            return Err("Asset count exceeds maximum limit for 8GB RAM constraint");
        }
        proof {
            lemma_square(n as int);
        }
        if correlation_matrix.len() != n * n {
            return Err("Correlation matrix dimension mismatch");
        }
        let memory: u64 = (n * n * 8) as u64 + (n * 8) as u64;
        if !budget.reserve(memory) {
            return Err("Memory budget exceeded for HRP construction");
        }
        Ok(
            HierarchicalRiskParity {
                correlation_matrix: correlation_matrix.clone(),
                asset_ids: asset_ids.clone(),
                n_assets: n,
                dendrogram_root: None,
            },
        )
    }

    /// Give back what the matrix reserved
    pub fn release(self, budget: &mut MemoryBudget)
        requires
            self.wf(),
            old(budget).wf(),
            old(budget).used >= matrix_memory(self.n_assets as int),
        ensures
            final(budget).wf(),
            *final(budget) == (MemoryBudget {
                used: (old(budget).used - matrix_memory(self.n_assets as int)) as u64,
                ..*old(budget)
            }),
    {
        let n: usize = self.n_assets;
        proof {
            lemma_square(n as int);
        }
        budget.release((n * n * 8) as u64 + (n * 8) as u64);
    }

    /// Get correlation between two assets with bounds checking
    pub fn get_correlation(&self, i: usize, j: usize) -> (r: i64)
        requires
            self.wf(),
        ensures
            r == correlation(
                self.correlation_matrix@,
                self.n_assets as int,
                i as int,
                j as int,
            ),
    {
        if i >= self.n_assets || j >= self.n_assets {
            return ONE;
        }
        proof {
            let (a, n) = (i as int, self.n_assets as int);
            lemma_square(n);
            assert(0 <= a * n && a * n + n <= n * n) by (nonlinear_arith)
                requires
                    0 <= a < n,
            ;
        }
        let idx: usize = i * self.n_assets + j;
        if idx >= self.correlation_matrix.len() {
            return ONE;
        }
        self.correlation_matrix[idx]
    }

    /// The places of the closest pair of clusters
    fn find_closest(&self, active: &Vec<usize>) -> (r: (usize, usize))
        requires
            self.wf(),
            active.len() >= 2,
        ensures
            closest(
                self.correlation_matrix@,
                self.n_assets as int,
                active@,
                r.0 as int,
                r.1 as int,
            ),
    {
        let ghost m = self.correlation_matrix@;
        let ghost n = self.n_assets as int;
        let mut best: (usize, usize) = (0, 1);
        let mut least: i64 = self.get_correlation(active[0], active[1]);
        let mut i: usize = 0;
        while i < active.len()
            invariant
                i <= active.len(),
                active.len() >= 2,
                self.wf(),
                m == self.correlation_matrix@,
                n == self.n_assets,
                best.0 < best.1 < active.len(),
                least == pair_distance(m, n, active@, best.0 as int, best.1 as int),
                forall|c: int, d: int|
                    0 <= c < i && c < d < active.len() ==> #[trigger] pair_distance(
                        m,
                        n,
                        active@,
                        c,
                        d,
                    ) >= least,
                best == (0usize, 1usize) || best.0 < i,
                forall|c: int, d: int|
                    0 <= c < d < active.len() && pair_before(c, d, best.0 as int, best.1 as int)
                        ==> #[trigger] pair_distance(m, n, active@, c, d) > least,
            decreases active.len() - i,
        {
            let mut j: usize = i + 1;
            while j < active.len()
                invariant
                    i < active.len(),
                    i + 1 <= j <= active.len(),
                    active.len() >= 2,
                    self.wf(),
                    m == self.correlation_matrix@,
                    n == self.n_assets,
                    best.0 < best.1 < active.len(),
                    least == pair_distance(m, n, active@, best.0 as int, best.1 as int),
                    forall|c: int, d: int|
                        0 <= c < d < active.len() && pair_before(c, d, i as int, j as int)
                            ==> #[trigger] pair_distance(m, n, active@, c, d) >= least,
                    best == (0usize, 1usize) || pair_before(
                        best.0 as int,
                        best.1 as int,
                        i as int,
                        j as int,
                    ),
                    forall|c: int, d: int|
                        0 <= c < d < active.len() && pair_before(
                            c,
                            d,
                            best.0 as int,
                            best.1 as int,
                        ) ==> #[trigger] pair_distance(m, n, active@, c, d) > least,
                decreases active.len() - j,
            {
                let distance: i64 = self.get_correlation(active[i], active[j]);
                assert(distance == pair_distance(m, n, active@, i as int, j as int));
                if distance < least {
                    least = distance;
                    best = (i, j);
                }
                j = j + 1;
            }
            i = i + 1;
        }
        best
    }

    /// Compute linkage: the closest clusters merge first
    pub fn compute_linkage(&self) -> (r: Vec<Merge>)
        requires
            self.wf(),
            self.n_assets > 0,
        ensures
            links(
                self.correlation_matrix@,
                self.n_assets as int,
                places(self.n_assets as int),
                r@,
            ),
    {
        let ghost m = self.correlation_matrix@;
        let ghost n = self.n_assets as int;
        let mut active: Vec<usize> = Vec::new();
        let mut i: usize = 0;
        while i < self.n_assets
            invariant
                i <= self.n_assets,
                n == self.n_assets,
                active@ == places(i as int),
            decreases self.n_assets - i,
        {
            active.push(i);
            i = i + 1;
            assert(active@ =~= places(i as int));
        }
        let mut linkage: Vec<Merge> = Vec::new();
        let ghost mut actives: Seq<Seq<usize>> = seq![active@];
        while active.len() > 1
            invariant
                self.wf(),
                m == self.correlation_matrix@,
                n == self.n_assets,
                n > 0,
                active.len() >= 1,
                actives.len() == linkage.len() + 1,
                actives[0] == places(n),
                actives.last() == active@,
                steps(m, n, actives, linkage@),
            decreases active.len(),
        {
            let pair: (usize, usize) = self.find_closest(&active);
            let kept: usize = active[pair.0];
            let joined: usize = active[pair.1];
            let distance: i64 = self.get_correlation(kept, joined);
            let ghost before = active@;
            let ghost done = linkage@;
            let ghost chain = actives;
            linkage.push(Merge { kept, joined, distance });
            let _ = active.remove(pair.1);
            proof {
                assert(active@ =~= before.remove(pair.1 as int));
                actives = actives.push(active@);
                assert forall|k: int| 0 <= k < linkage.len() implies #[trigger] step_of(
                    m,
                    n,
                    actives,
                    linkage@,
                    k,
                ) by {
                    if k < done.len() {
                        assert(step_of(m, n, chain, done, k));
                        assert(actives[k] == chain[k] && actives[k + 1] == chain[k + 1]);
                        assert(linkage@[k] == done[k]);
                    } else {
                        assert(actives[k] == before && actives[k + 1] == active@);
                        assert(closest(m, n, actives[k], pair.0 as int, pair.1 as int));
                    }
                }
            }
        }
        proof {
            lemma_steps_link(m, n, actives, linkage@);
        }
        linkage
    }
}

impl HierarchicalRiskParity {
    /// Build dendrogram from linkage
    pub fn build_dendrogram(&mut self) -> (r: Result<(), &'static str>)
        requires
            old(self).wf(),
            old(self).n_assets > 0,
        ensures
            r is Ok,
            final(self).wf(),
            exists|merges: Seq<Merge>| #[trigger]
                links(
                    old(self).correlation_matrix@,
                    old(self).n_assets as int,
                    places(old(self).n_assets as int),
                    merges,
                ) && final(self).dendrogram_root == forest_after(
                    leaves(old(self).n_assets as int),
                    merges,
                    old(self).n_assets as int,
                )[0],
            final(self).dendrogram_root is Some,
            *final(self) == (HierarchicalRiskParity {
                dendrogram_root: final(self).dendrogram_root,
                ..*old(self)
            }),
    {
        let linkage: Vec<Merge> = self.compute_linkage();
        let ghost m = self.correlation_matrix@;
        let ghost n = self.n_assets as int;
        let mut nodes: Vec<Option<Box<ClusterNode>>> = Vec::new();
        let mut i: usize = 0;
        while i < self.n_assets
            invariant
                i <= self.n_assets,
                nodes@ == leaves(i as int),
            decreases self.n_assets - i,
        {
            nodes.push(
                Some(
                    Box::new(
                        ClusterNode { id: i, left: None, right: None, distance: 0, size: 1 },
                    ),
                ),
            );
            i = i + 1;
            assert(nodes@ =~= leaves(i as int));
        }
        let ghost mut active = places(n);
        let mut k: usize = 0;
        proof {
            lemma_leaves_cover(n);
            assert(linkage@.subrange(0, linkage.len() as int) =~= linkage@);
            lemma_links_len(m, n, active, linkage@);
        }
        while k < linkage.len()
            invariant
                k <= linkage.len(),
                linkage.len() < n <= MAX_ASSETS,
                n == self.n_assets,
                active.len() >= 1,
                active[0] == 0,
                covers(nodes@, active, n),
                links(m, n, active, linkage@.subrange(k as int, linkage.len() as int)),
                forest_after(leaves(n), linkage@, n) == forest_after(
                    nodes@,
                    linkage@.subrange(k as int, linkage.len() as int),
                    n + k,
                ),
            decreases linkage.len() - k,
        {
            let merge: Merge = linkage[k];
            let ghost rest = linkage@.subrange(k as int, linkage.len() as int);
            let ghost before = nodes@;
            proof {
                assert(rest[0] == merge);
                assert(rest.subrange(1, rest.len() as int) =~= linkage@.subrange(
                    k + 1,
                    linkage.len() as int,
                ));
                let (a, b) = choose|a: int, b: int| #[trigger]
                    closest(m, n, active, a, b) && rest[0] == (Merge {
                        kept: active[a],
                        joined: active[b],
                        distance: pair_distance(m, n, active, a, b),
                    }) && links(m, n, active.remove(b), rest.subrange(1, rest.len() as int));
                lemma_merge_covers(before, active, n, a, b, n + k, merge.distance);
                active = active.remove(b);
            }
            let mut left_slot: Option<Box<ClusterNode>> = None;
            let mut right_slot: Option<Box<ClusterNode>> = None;
            std::mem::swap(&mut nodes[merge.kept], &mut left_slot);
            std::mem::swap(&mut nodes[merge.joined], &mut right_slot);
            let left: Box<ClusterNode> = match left_slot {
                Some(node) => node,
                None => {
                    return Err("Invalid cluster reference");
                },
            };
            let right: Box<ClusterNode> = match right_slot {
                Some(node) => node,
                None => {
                    return Err("Invalid cluster reference");
                },
            };
            let size: usize = left.size + right.size;
            let id: usize = self.n_assets + k;
            nodes.set(
                merge.kept,
                Some(
                    Box::new(
                        ClusterNode {
                            id,
                            left: Some(left),
                            right: Some(right),
                            distance: merge.distance,
                            size,
                        },
                    ),
                ),
            );
            proof {
                let (i, j) = (merge.kept as int, merge.joined as int);
                let node = joined(
                    (n + k) as usize,
                    before[i]->0,
                    before[j]->0,
                    merge.distance,
                );
                assert(nodes@ =~= before.update(j, None).update(i, Some(Box::new(node))));
            }
            k = k + 1;
        }
        proof {
            assert(linkage@.subrange(k as int, linkage.len() as int) =~= Seq::<Merge>::empty());
            lemma_last_covers(nodes@, active, n);
        }
        let mut root: Option<Box<ClusterNode>> = None;
        std::mem::swap(&mut nodes[0], &mut root);
        self.dendrogram_root = root;
        Ok(())
    }

    /// Collect all asset indices in a cluster
    pub fn collect_assets(&self, node: &ClusterNode, indices: &mut Vec<usize>)
        ensures
            final(indices)@ == old(indices)@ + assets_of(*node, self.n_assets as int),
        decreases node,
    {
        let ghost start = indices@;
        if node.left.is_none() && node.right.is_none() {
            if node.id < self.n_assets {
                indices.push(node.id);
                assert(indices@ =~= start + seq![node.id]);
            } else {
                assert(indices@ =~= start + Seq::<usize>::empty());
            }
        } else {
            if let Some(left) = &node.left {
                self.collect_assets(left, indices);
            }
            if let Some(right) = &node.right {
                self.collect_assets(right, indices);
            }
            assert(indices@ =~= start + assets_of(*node, self.n_assets as int));
        }
    }

    /// Compute variance of a cluster: one less the mean correlation of its
    /// pairs, and one for a cluster without pairs; in units of one
    /// hundred-millionth
    pub fn cluster_variance(&self, node: &ClusterNode) -> (r: SignedRatio)
        requires
            self.wf(),
            assets_of(*node, self.n_assets as int).len() <= MAX_ASSETS,
        ensures
            r == variance_of(
                self.correlation_matrix@,
                self.n_assets as int,
                assets_of(*node, self.n_assets as int),
            ),
            0 < r.den <= 124_750,
            math::abs_int(r.num as int) <= 124_750 * 0x1_0000_0000_0000_0000,
    {
        let mut assets: Vec<usize> = Vec::new();
        self.collect_assets(node, &mut assets);
        let ghost m = self.correlation_matrix@;
        let ghost n = self.n_assets as int;
        let ghost s = assets@;
        assert(s =~= assets_of(*node, n));
        let mut sum: i128 = 0;
        let mut count: u64 = 0;
        let mut j: usize = 0;
        assert(s.subrange(0, 0) =~= Seq::<usize>::empty());
        while j < assets.len()
            invariant
                self.wf(),
                m == self.correlation_matrix@,
                n == self.n_assets,
                s == assets@,
                j <= assets.len() <= MAX_ASSETS,
                sum == pair_sum(m, n, s.subrange(0, j as int)),
                2 * count == j * (j - 1),
                count <= 124_750,
                -(count * 0x8000_0000_0000_0000) <= sum <= count * 0x8000_0000_0000_0000,
            decreases assets.len() - j,
        {
            let ghost row = s.subrange(0, j as int);
            let ghost first = sum as int;
            let ghost pairs = count;
            let mut i: usize = 0;
            while i < j
                invariant
                    self.wf(),
                    m == self.correlation_matrix@,
                    n == self.n_assets,
                    s == assets@,
                    i <= j < assets.len() <= MAX_ASSETS,
                    row == s.subrange(0, j as int),
                    first == pair_sum(m, n, row),
                    sum == first + sum_with(m, n, row.subrange(0, i as int), s[j as int]),
                    count == pairs + i,
                    2 * pairs == j * (j - 1),
                    pairs <= 124_750,
                    -(count * 0x8000_0000_0000_0000) <= sum <= count * 0x8000_0000_0000_0000,
                decreases j - i,
            {
                proof {
                    let next = row.subrange(0, i + 1);
                    assert(next.drop_last() =~= row.subrange(0, i as int));
                    assert(next.last() == s[i as int]);
                }
                sum = sum + self.get_correlation(assets[i], assets[j]) as i128;
                count = count + 1;
                i = i + 1;
            }
            proof {
                assert(row.subrange(0, i as int) =~= row);
                let next = s.subrange(0, j + 1);
                assert(next.drop_last() =~= row);
                assert(next.last() == s[j as int]);
                let x = j as int;
                assert(x * (x - 1) + 2 * x == (x + 1) * x && (x + 1) * x <= 249_500)
                    by (nonlinear_arith)
                    requires
                        0 <= x < 500,
                ;
            }
            j = j + 1;
        }
        assert(s.subrange(0, j as int) =~= s);
        if count == 0 {
            proof {
                let x = j as int;
                assert(x < 2) by (nonlinear_arith)
                    requires
                        x * (x - 1) == 0,
                        x >= 0,
                ;
            }
            return SignedRatio { num: 100_000_000, den: 1 };
        }
        proof {
            let x = j as int;
            assert(x >= 2) by (nonlinear_arith)
                requires
                    x * (x - 1) > 0,
                    x >= 0,
            ;
        }
        SignedRatio { num: count as i128 * 100_000_000 - sum, den: count }
    }

    /// The share of the left of two clusters: the variance of the right over
    /// both, or a half where they have none
    pub fn left_share(&self, left: &ClusterNode, right: &ClusterNode) -> (r: Share)
        requires
            self.wf(),
            assets_of(*left, self.n_assets as int).len() <= MAX_ASSETS,
            assets_of(*right, self.n_assets as int).len() <= MAX_ASSETS,
        ensures
            r == share_of(
                variance_of(
                    self.correlation_matrix@,
                    self.n_assets as int,
                    assets_of(*left, self.n_assets as int),
                ),
                variance_of(
                    self.correlation_matrix@,
                    self.n_assets as int,
                    assets_of(*right, self.n_assets as int),
                ),
            ),
            r.den > 0,
    {
        let l: SignedRatio = self.cluster_variance(left);
        let r: SignedRatio = self.cluster_variance(right);
        proof {
            lemma_share(l.num as int, r.den as int);
            lemma_share(r.num as int, l.den as int);
        }
        let a: i128 = l.num * r.den as i128;
        let b: i128 = r.num * l.den as i128;
        if a + b > 0 {
            Share { num: b, den: a + b }
        } else {
            Share { num: 1, den: 2 }
        }
    }

    fn bisect(&self, node: &ClusterNode, start: usize, end: usize, plan: &mut Vec<Step>)
        requires
            self.wf(),
            start <= end,
            assets_of(*node, self.n_assets as int).len() <= MAX_ASSETS,
        ensures
            final(plan)@ == old(plan)@ + bisection(
                self.correlation_matrix@,
                self.n_assets as int,
                *node,
                start as int,
                end as int,
            ),
        decreases node,
    {
        let ghost before = plan@;
        let ghost all = bisection(
            self.correlation_matrix@,
            self.n_assets as int,
            *node,
            start as int,
            end as int,
        );
        if node.left.is_none() && node.right.is_none() {
            if node.id < self.n_assets {
                plan.push(Step::Assign { asset: node.id });
                assert(plan@ =~= before + all);
            } else {
                assert(plan@ =~= before + all);
            }
            return ;
        }
        if let Some(left) = &node.left {
            if let Some(right) = &node.right {
                let share: Share = self.left_share(left, right);
                let mid: usize = start + (end - start) / 2;
                self.bisect(left, start, mid, plan);
                self.bisect(right, mid, end, plan);
                plan.push(Step::Scale { start, mid, end, left: share });
                assert(plan@ =~= before + all);
                return ;
            }
        }
        assert(plan@ =~= before + all);
    }

    /// Compute how capital is split along the dendrogram: the steps that turn
    /// equal weights into risk parity weights, before they are normalized
    pub fn weight_plan(&self) -> (r: Result<Vec<Step>, &'static str>)
        requires
            self.wf(),
        ensures
            match (r, self.dendrogram_root) {
                (Ok(plan), Some(root)) => plan@ == bisection(
                    self.correlation_matrix@,
                    self.n_assets as int,
                    *root,
                    0,
                    self.n_assets as int,
                ),
                (Err(e), None) => e@ == "Dendrogram not built. Call build_dendrogram first."@,
                _ => false,
            },
    {
        match &self.dendrogram_root {
            None => Err("Dendrogram not built. Call build_dendrogram first."),
            Some(root) => {
                let mut plan: Vec<Step> = Vec::new();
                self.bisect(root, 0, self.n_assets, &mut plan);
                Ok(plan)
            },
        }
    }
}

/// A share of capital.
#[derive(Debug, Clone, Copy, PartialEq, Eq, Structural)]
pub struct Share {
    pub num: i128,
    pub den: i128,
}

/// One step of the split of capital.
#[derive(Debug, Clone, Copy, PartialEq, Eq, Structural)]
pub enum Step {
    /// Give an asset a weight of one
    Assign { asset: usize },
    /// Multiply the weights before `mid` by the left share and those from
    /// there on by what is left of one
    Scale { start: usize, mid: usize, end: usize, left: Share },
}

/// Correlations of assets with one more, summed.
pub open spec fn sum_with(matrix: Seq<i64>, n: int, s: Seq<usize>, asset: usize) -> int
    decreases s.len(),
{
    if s.len() == 0 {
        0
    } else {
        sum_with(matrix, n, s.drop_last(), asset) + correlation(
            matrix,
            n,
            s.last() as int,
            asset as int,
        )
    }
}

/// Correlations of all pairs of assets, summed.
pub open spec fn pair_sum(matrix: Seq<i64>, n: int, s: Seq<usize>) -> int
    decreases s.len(),
{
    if s.len() == 0 {
        0
    } else {
        pair_sum(matrix, n, s.drop_last()) + sum_with(matrix, n, s.drop_last(), s.last())
    }
}

/// One less the mean correlation of the pairs, and one where there are none.
pub open spec fn variance_of(matrix: Seq<i64>, n: int, s: Seq<usize>) -> SignedRatio {
    if s.len() < 2 {
        SignedRatio { num: 100_000_000, den: 1 }
    } else {
        let pairs = s.len() * (s.len() - 1) / 2;
        SignedRatio {
            num: (pairs * 100_000_000 - pair_sum(matrix, n, s)) as i128,
            den: pairs as u64,
        }
    }
}

/// Inverse variance allocation to the left of two clusters.
pub open spec fn share_of(left: SignedRatio, right: SignedRatio) -> Share {
    let (a, b) = (left.num * right.den, right.num * left.den);
    if a + b > 0 {
        Share { num: b as i128, den: (a + b) as i128 }
    } else {
        Share { num: 1, den: 2 }
    }
}

/// Recursive bisection: both halves of a range are split along the two
/// clusters of a node, and are then scaled by the clusters' shares.
pub open spec fn bisection(
    matrix: Seq<i64>,
    n: int,
    node: ClusterNode,
    start: int,
    end: int,
) -> Seq<Step>
    decreases node,
{
    match (node.left, node.right) {
        (None, None) => if node.id < n {
            seq![Step::Assign { asset: node.id }]
        } else {
            Seq::empty()
        },
        (Some(l), Some(r)) => {
            let mid = start + (end - start) / 2;
            bisection(matrix, n, *l, start, mid) + bisection(matrix, n, *r, mid, end) + seq![
                Step::Scale {
                    start: start as usize,
                    mid: mid as usize,
                    end: end as usize,
                    left: share_of(
                        variance_of(matrix, n, assets_of(*l, n)),
                        variance_of(matrix, n, assets_of(*r, n)),
                    ),
                },
            ]
        },
        _ => Seq::empty(),
    }
}

/// How often an asset occurs.
pub open spec fn times(s: Seq<usize>, x: int) -> int
    decreases s.len(),
{
    if s.len() == 0 {
        0
    } else {
        times(s.drop_last(), x) + (if s.last() == x {
            1int
        } else {
            0
        })
    }
}

proof fn lemma_times_concat(s: Seq<usize>, t: Seq<usize>, x: int)
    ensures
        times(s + t, x) == times(s, x) + times(t, x),
    decreases t.len(),
{
    if t.len() == 0 {
        assert(s + t =~= s);
    } else {
        lemma_times_concat(s, t.drop_last(), x);
        assert((s + t).drop_last() =~= s + t.drop_last());
    }
}

/// The assets of what may be a cluster.
pub open spec fn held(node: Option<Box<ClusterNode>>, n: int) -> Seq<usize> {
    match node {
        Some(c) => assets_of(*c, n),
        None => Seq::empty(),
    }
}

/// How many assets the clusters of a forest hold.
pub open spec fn forest_len(forest: Seq<Option<Box<ClusterNode>>>, n: int) -> int
    decreases forest.len(),
{
    if forest.len() == 0 {
        0
    } else {
        forest_len(forest.drop_last(), n) + held(forest.last(), n).len()
    }
}

/// How often an asset occurs in the clusters of a forest.
pub open spec fn forest_times(forest: Seq<Option<Box<ClusterNode>>>, n: int, x: int) -> int
    decreases forest.len(),
{
    if forest.len() == 0 {
        0
    } else {
        forest_times(forest.drop_last(), n, x) + times(held(forest.last(), n), x)
    }
}

/// Active clusters that hold every asset once between them.
pub open spec fn covers(forest: Seq<Option<Box<ClusterNode>>>, active: Seq<usize>, n: int) -> bool {
    &&& stands_for(forest, active, n)
    &&& forest_len(forest, n) == n
    &&& forall|x: int| 0 <= x < n ==> #[trigger] forest_times(forest, n, x) == 1
    &&& forall|i: int|
        0 <= i < n && (#[trigger] forest[i]) is Some ==> forest[i]->0.size == held(
            forest[i],
            n,
        ).len()
}

proof fn lemma_forest_update(
    forest: Seq<Option<Box<ClusterNode>>>,
    n: int,
    i: int,
    node: Option<Box<ClusterNode>>,
)
    requires
        0 <= i < forest.len(),
    ensures
        forest_len(forest.update(i, node), n) == forest_len(forest, n) - held(forest[i], n).len()
            + held(node, n).len(),
        forall|x: int|
            #![trigger forest_times(forest.update(i, node), n, x)]
            forest_times(forest.update(i, node), n, x) == forest_times(forest, n, x) - times(
                held(forest[i], n),
                x,
            ) + times(held(node, n), x),
    decreases forest.len(),
{
    let rest = forest.drop_last();
    let next = forest.update(i, node);
    if i == forest.len() - 1 {
        assert(next.drop_last() =~= rest);
    } else {
        assert(next.drop_last() =~= rest.update(i, node));
        lemma_forest_update(rest, n, i, node);
        assert forall|x: int|
            #![trigger forest_times(forest.update(i, node), n, x)]
            forest_times(forest.update(i, node), n, x) == forest_times(forest, n, x) - times(
                held(forest[i], n),
                x,
            ) + times(held(node, n), x) by {
            assert(forest_times(rest.update(i, node), n, x) == forest_times(rest, n, x) - times(
                held(rest[i], n),
                x,
            ) + times(held(node, n), x));
        }
    }
}

/// Two clusters hold no more than the whole forest.
proof fn lemma_forest_len_pair(forest: Seq<Option<Box<ClusterNode>>>, n: int, i: int, j: int)
    requires
        0 <= i < forest.len(),
        0 <= j < forest.len(),
        i != j,
    ensures
        held(forest[i], n).len() + held(forest[j], n).len() <= forest_len(forest, n),
{
    let one = forest.update(i, None);
    lemma_forest_update(forest, n, i, None);
    lemma_forest_update(one, n, j, None);
    lemma_forest_len(one.update(j, None), n);
}

proof fn lemma_forest_len(forest: Seq<Option<Box<ClusterNode>>>, n: int)
    ensures
        forest_len(forest, n) >= 0,
    decreases forest.len(),
{
    if forest.len() > 0 {
        lemma_forest_len(forest.drop_last(), n);
    }
}

/// A merge keeps every asset in exactly one cluster.
proof fn lemma_merge_covers(
    forest: Seq<Option<Box<ClusterNode>>>,
    active: Seq<usize>,
    n: int,
    a: int,
    b: int,
    id: int,
    distance: i64,
)
    requires
        covers(forest, active, n),
        n <= MAX_ASSETS,
        0 <= a < b < active.len(),
    ensures
        ({
            let (i, j) = (active[a] as int, active[b] as int);
            let node = joined(id as usize, forest[i]->0, forest[j]->0, distance);
            &&& i != j
            &&& 0 <= i < n
            &&& 0 <= j < n
            &&& forest[i] is Some
            &&& forest[j] is Some
            &&& forest[i]->0.size + forest[j]->0.size <= n
            &&& covers(
                forest.update(j, None).update(i, Some(Box::new(node))),
                active.remove(b),
                n,
            )
        }),
{
    let (i, j) = (active[a] as int, active[b] as int);
    assert(active.contains(active[a]));
    assert(active.contains(active[b]));
    assert(forest[i] is Some && forest[j] is Some);
    let (l, r) = (forest[i]->0, forest[j]->0);
    let node = joined(id as usize, l, r, distance);
    let one = forest.update(j, None);
    let some = Some(Box::new(node));
    let next = one.update(i, some);
    lemma_forest_len_pair(forest, n, i, j);
    lemma_forest_update(forest, n, j, None);
    lemma_forest_update(one, n, i, some);
    assert(held(some, n) =~= held(forest[i], n) + held(forest[j], n));
    let left = active.remove(b);
    assert forall|x: int| 0 <= x < n implies #[trigger] forest_times(next, n, x) == 1 by {
        lemma_times_concat(held(forest[i], n), held(forest[j], n), x);
        assert(forest_times(forest, n, x) == 1);
        assert(forest_times(one, n, x) == forest_times(forest, n, x) - times(
            held(forest[j], n),
            x,
        ) + times(held(None, n), x));
    }
    assert forall|k: int| 0 <= k < left.len() implies 0 <= (#[trigger] left[k]) < n by {
        assert(left[k] == active[if k < b {
            k
        } else {
            k + 1
        }]);
    }
    assert(left.no_duplicates());
    assert forall|p: int| 0 <= p < n implies ((#[trigger] next[p]) is Some <==> left.contains(
        p as usize,
    )) by {
        lemma_removed(active, b, p as usize);
        assert(forest[p] is Some <==> active.contains(p as usize));
    }
}

/// Removing a place from a sequence without repeats removes what stood there,
/// and nothing else.
proof fn lemma_removed(s: Seq<usize>, b: int, x: usize)
    requires
        0 <= b < s.len(),
        s.no_duplicates(),
    ensures
        s.remove(b).contains(x) <==> (s.contains(x) && x != s[b]),
{
    let left = s.remove(b);
    if left.contains(x) {
        let k = choose|k: int| 0 <= k < left.len() && left[k] == x;
        let p = if k < b {
            k
        } else {
            k + 1
        };
        assert(s[p] == x);
    }
    if s.contains(x) && x != s[b] {
        let p = choose|p: int| 0 <= p < s.len() && s[p] == x;
        let k = if p < b {
            p
        } else {
            p - 1
        };
        assert(left[k] == x);
    }
}

/// Single assets cover themselves.
proof fn lemma_leaves_cover(n: int)
    requires
        0 <= n <= MAX_ASSETS,
    ensures
        covers(leaves(n), places(n), n),
{
    let forest = leaves(n);
    let active = places(n);
    assert forall|i: int| 0 <= i < n implies ((#[trigger] forest[i]) is Some <==> active.contains(
        i as usize,
    )) by {
        assert(active[i] == i as usize);
    }
    lemma_leaves_counts(n, n);
}

proof fn lemma_leaves_counts(k: int, n: int)
    requires
        0 <= k <= n <= MAX_ASSETS,
    ensures
        forest_len(leaves(k), n) == k,
        forall|x: int|
            0 <= x < n ==> #[trigger] forest_times(leaves(k), n, x) == (if x < k {
                1int
            } else {
                0
            }),
    decreases k,
{
    if k > 0 {
        lemma_leaves_counts(k - 1, n);
        assert(leaves(k).drop_last() =~= leaves(k - 1));
        let last = leaves(k).last();
        assert(held(last, n) =~= seq![(k - 1) as usize]);
        assert forall|x: int| 0 <= x < n implies #[trigger] forest_times(leaves(k), n, x) == (if x
            < k {
            1int
        } else {
            0
        }) by {
            assert(forest_times(leaves(k - 1), n, x) == (if x < k - 1 {
                1int
            } else {
                0
            }));
            let one = seq![(k - 1) as usize];
            assert(one.drop_last() =~= Seq::<usize>::empty());
            assert(times(one.drop_last(), x) == 0);
        }
    }
}

/// There is one merge fewer than there are clusters.
proof fn lemma_links_len(matrix: Seq<i64>, n: int, active: Seq<usize>, merges: Seq<Merge>)
    requires
        links(matrix, n, active, merges),
        active.len() >= 1,
    ensures
        merges.len() == active.len() - 1,
    decreases active.len(),
{
    if active.len() > 1 {
        let (a, b) = choose|a: int, b: int| #[trigger]
            closest(matrix, n, active, a, b) && merges[0] == (Merge {
                kept: active[a],
                joined: active[b],
                distance: pair_distance(matrix, n, active, a, b),
            }) && links(matrix, n, active.remove(b), merges.subrange(1, merges.len() as int));
        lemma_links_len(matrix, n, active.remove(b), merges.subrange(1, merges.len() as int));
    }
}

/// The last cluster holds what the whole forest does.
proof fn lemma_last_covers(forest: Seq<Option<Box<ClusterNode>>>, active: Seq<usize>, n: int)
    requires
        covers(forest, active, n),
        active.len() == 1,
        active[0] == 0,
        0 < n <= MAX_ASSETS,
    ensures
        forest[0] is Some,
        held(forest[0], n).len() == n,
        forest[0]->0.size == n,
        forall|x: int| 0 <= x < n ==> #[trigger] times(held(forest[0], n), x) == 1,
{
    assert(active.contains(active[0]));
    assert forall|i: int| 1 <= i < n implies (#[trigger] forest[i]) is None by {
        if active.contains(i as usize) {
            let k = choose|k: int| 0 <= k < active.len() && active[k] == i as usize;
            assert(k == 0);
        }
    }
    lemma_only_first(forest, n);
    assert forall|x: int| 0 <= x < n implies #[trigger] times(held(forest[0], n), x) == 1 by {
        assert(forest_times(forest, n, x) == 1);
    }
}

proof fn lemma_only_first(forest: Seq<Option<Box<ClusterNode>>>, n: int)
    requires
        forest.len() > 0,
        forall|i: int| 1 <= i < forest.len() ==> (#[trigger] forest[i]) is None,
    ensures
        forest_len(forest, n) == held(forest[0], n).len(),
        forall|x: int| #[trigger] forest_times(forest, n, x) == times(held(forest[0], n), x),
    decreases forest.len(),
{
    let rest = forest.drop_last();
    if forest.len() > 1 {
        assert(forest[forest.len() - 1] is None);
        assert forall|i: int| 1 <= i < rest.len() implies (#[trigger] rest[i]) is None by {
            assert(forest[i] is None);
        }
        lemma_only_first(rest, n);
        assert forall|x: int| #[trigger]
            forest_times(forest, n, x) == times(held(forest[0], n), x) by {
            assert(forest_times(rest, n, x) == times(held(rest[0], n), x));
        }
    } else {
        assert(rest =~= Seq::empty());
        assert(forest_len(rest, n) == 0);
        assert forall|x: int| #[trigger]
            forest_times(forest, n, x) == times(held(forest[0], n), x) by {
            assert(forest_times(rest, n, x) == 0);
        }
    }
}

/// Merges of clusters that cover the assets end in one cluster that does.
proof fn lemma_forest_covers(
    matrix: Seq<i64>,
    n: int,
    forest: Seq<Option<Box<ClusterNode>>>,
    active: Seq<usize>,
    merges: Seq<Merge>,
    next_id: int,
)
    requires
        covers(forest, active, n),
        links(matrix, n, active, merges),
        active.len() >= 1,
        active[0] == 0,
        0 < n <= MAX_ASSETS,
    ensures
        ({
            let root = forest_after(forest, merges, next_id)[0];
            &&& root is Some
            &&& held(root, n).len() == n
            &&& root->0.size == n
            &&& forall|x: int| 0 <= x < n ==> #[trigger] times(held(root, n), x) == 1
        }),
    decreases active.len(),
{
    if active.len() == 1 {
        lemma_last_covers(forest, active, n);
    } else {
        let rest = merges.subrange(1, merges.len() as int);
        let (a, b) = choose|a: int, b: int| #[trigger]
            closest(matrix, n, active, a, b) && merges[0] == (Merge {
                kept: active[a],
                joined: active[b],
                distance: pair_distance(matrix, n, active, a, b),
            }) && links(matrix, n, active.remove(b), rest);
        lemma_merge_covers(forest, active, n, a, b, next_id, merges[0].distance);
        let (i, j) = (active[a] as int, active[b] as int);
        let node = joined(next_id as usize, forest[i]->0, forest[j]->0, merges[0].distance);
        lemma_forest_covers(
            matrix,
            n,
            forest.update(j, None).update(i, Some(Box::new(node))),
            active.remove(b),
            rest,
            next_id + 1,
        );
    }
}

/// Every asset is in the dendrogram exactly once, and the root counts them
/// all.
pub proof fn law_dendrogram_covers(matrix: Seq<i64>, n: int, merges: Seq<Merge>)
    requires
        0 < n <= MAX_ASSETS,
        links(matrix, n, places(n), merges),
    ensures
        forest_after(leaves(n), merges, n)[0] matches Some(root) && {
            &&& root.size == n
            &&& assets_of(*root, n).len() == n
            &&& forall|x: int| 0 <= x < n ==> #[trigger] times(assets_of(*root, n), x) == 1
        },
{
    lemma_leaves_cover(n);
    lemma_forest_covers(matrix, n, leaves(n), places(n), merges, n);
    let root = forest_after(leaves(n), merges, n)[0];
    assert forall|x: int| 0 <= x < n implies #[trigger] times(assets_of(*(root->0), n), x)
        == 1 by {
        assert(times(held(root, n), x) == 1);
    }
}

/// The steps of a split stay within its range: each scales two parts that
/// make up a part of the range.
pub proof fn law_split_in_range(
    matrix: Seq<i64>,
    n: int,
    node: ClusterNode,
    start: int,
    end: int,
)
    requires
        0 <= start <= end <= usize::MAX,
    ensures
        forall|k: int|
            0 <= k < bisection(matrix, n, node, start, end).len() ==> match #[trigger] bisection(
                matrix,
                n,
                node,
                start,
                end,
            )[k] {
                Step::Assign { asset } => asset < n,
                Step::Scale { start: s, mid: m, end: e, left } => start <= s <= m <= e <= end,
            },
    decreases node,
{
    let all = bisection(matrix, n, node, start, end);
    if let (Some(l), Some(r)) = (node.left, node.right) {
        let mid = start + (end - start) / 2;
        law_split_in_range(matrix, n, *l, start, mid);
        law_split_in_range(matrix, n, *r, mid, end);
        let x = bisection(matrix, n, *l, start, mid);
        let y = bisection(matrix, n, *r, mid, end);
        assert forall|k: int| 0 <= k < all.len() implies match #[trigger] all[k] {
            Step::Assign { asset } => asset < n,
            Step::Scale { start: s, mid: m, end: e, left } => start <= s <= m <= e <= end,
        } by {
            if k < x.len() {
                assert(all[k] == x[k]);
            } else if k < x.len() + y.len() {
                assert(all[k] == y[k - x.len()]);
            }
        }
    }
}

proof fn lemma_share(a: int, b: int)
    requires
        -(124_750 * 0x1_0000_0000_0000_0000) <= a <= 124_750 * 0x1_0000_0000_0000_0000,
        0 < b <= 124_750,
    ensures
        -(124_750 * 124_750 * 0x1_0000_0000_0000_0000) <= a * b <= 124_750 * 124_750
            * 0x1_0000_0000_0000_0000,
{
    assert(-(124_750 * 124_750 * 0x1_0000_0000_0000_0000) <= a * b <= 124_750 * 124_750
        * 0x1_0000_0000_0000_0000) by (nonlinear_arith)
        requires
            -(124_750 * 0x1_0000_0000_0000_0000) <= a <= 124_750 * 0x1_0000_0000_0000_0000,
            0 < b <= 124_750,
    ;
}

/// One step of a chain of merges.
spec fn step_of(
    matrix: Seq<i64>,
    n: int,
    actives: Seq<Seq<usize>>,
    merges: Seq<Merge>,
    k: int,
) -> bool {
    exists|a: int, b: int| #[trigger]
        closest(matrix, n, actives[k], a, b) && merges[k] == (Merge {
            kept: actives[k][a],
            joined: actives[k][b],
            distance: pair_distance(matrix, n, actives[k], a, b),
        }) && actives[k + 1] == actives[k].remove(b)
}

spec fn steps(matrix: Seq<i64>, n: int, actives: Seq<Seq<usize>>, merges: Seq<Merge>) -> bool {
    forall|k: int| 0 <= k < merges.len() ==> #[trigger] step_of(matrix, n, actives, merges, k)
}

/// A chain of merges down to one cluster links it all.
proof fn lemma_steps_link(matrix: Seq<i64>, n: int, actives: Seq<Seq<usize>>, merges: Seq<Merge>)
    requires
        actives.len() == merges.len() + 1,
        actives.last().len() == 1,
        steps(matrix, n, actives, merges),
    ensures
        links(matrix, n, actives[0], merges),
    decreases merges.len(),
{
    if merges.len() > 0 {
        let rest = merges.subrange(1, merges.len() as int);
        let tail = actives.subrange(1, actives.len() as int);
        assert forall|k: int| 0 <= k < rest.len() implies #[trigger] step_of(
            matrix,
            n,
            tail,
            rest,
            k,
        ) by {
            assert(step_of(matrix, n, actives, merges, k + 1));
            assert(tail[k] == actives[k + 1] && tail[k + 1] == actives[k + 2]);
            assert(rest[k] == merges[k + 1]);
        }
        lemma_steps_link(matrix, n, tail, rest);
        assert(step_of(matrix, n, actives, merges, 0));
        let (a, b) = choose|a: int, b: int| #[trigger]
            closest(matrix, n, actives[0], a, b) && merges[0] == (Merge {
                kept: actives[0][a],
                joined: actives[0][b],
                distance: pair_distance(matrix, n, actives[0], a, b),
            }) && actives[1] == actives[0].remove(b);
        assert(tail[0] == actives[0].remove(b));
    }
}

proof fn lemma_square(n: int)
    requires
        0 <= n <= 500,
    ensures
        0 <= n * n <= 250_000,
{
    assert(0 <= n * n <= 250_000) by (nonlinear_arith)
        requires
            0 <= n <= 500,
    ;
}

/// The sum of fixed-point numbers.
pub open spec fn sum_all(s: Seq<i64>) -> int
    decreases s.len(),
{
    if s.len() == 0 {
        0
    } else {
        sum_all(s.drop_last()) + s.last()
    }
}

/// A weight pulled from the current to the new one by one over one plus the
/// penalty times the turnover, and never below zero; over that denominator,
/// in units of one over ten to the twenty-fourth.
pub open spec fn blend(new: i64, current: i64, penalty: u64, turnover: int) -> int {
    math::max_int(new * 10_000_000_000_000_000 + current * (penalty * turnover), 0)
}

/// All weights pulled so, for the first `n`.
pub open spec fn blends(new: Seq<i64>, current: Seq<i64>, penalty: u64, turnover: int, n: int) -> Seq<
    int,
> {
    Seq::new(n as nat, |i: int| blend(new[i], current[i], penalty, turnover))
}

/// Parts of a whole as weights that sum to one, each rounded down; nothing
/// where there is no whole.
pub open spec fn normalized(parts: Seq<int>) -> Seq<i64> {
    let whole = math::sum_of(parts);
    Seq::new(
        parts.len(),
        |i: int|
            if whole > 0 {
                (parts[i] * 100_000_000 / whole) as i64
            } else {
                0
            },
    )
}

/// Risk Budgeting allocator with turnover constraints
pub struct RiskBudgetingAllocator {
    /// Target risk contributions per asset
    pub target_risk: Vec<i64>,
    /// Current weights
    pub current_weights: Vec<i64>,
    /// Turnover penalty coefficient
    pub turnover_penalty: u64,
}

/// Largest penalty coefficient for which blends are exact
pub const MAX_PENALTY: u64 = 0x4_0000_0000;

/// Largest turnover for which blends are exact
pub const MAX_BLEND_TURNOVER: u64 = 0x10_0000_0000;

impl RiskBudgetingAllocator {
    pub open spec fn wf(&self) -> bool {
        &&& self.current_weights.len() == self.target_risk.len()
        &&& forall|i: int|
            0 <= i < self.current_weights.len() ==> 0 <= (#[trigger] self.current_weights@[i])
                <= ONE
    }

    /// New weights that leave room for the products of an update.
    pub open spec fn accepts(&self, new_weights: Seq<i64>) -> bool {
        &&& new_weights.len() <= 0x1000_0000
        &&& self.turnover_penalty <= MAX_PENALTY
        &&& turnover_penalty::turnover_of(self.current_weights@, new_weights) <= MAX_BLEND_TURNOVER
        &&& forall|i: int|
            0 <= i < new_weights.len() ==> math::abs_int((#[trigger] new_weights[i]) as int)
                <= 0x4_0000_0000
    }

    pub fn new(target_risk: Vec<i64>, turnover_penalty: u64) -> (r: Result<Self, &'static str>)
        ensures
            match r {
                Ok(a) => {
                    &&& sum_all(target_risk@) > 0
                    &&& a.wf()
                    &&& a.target_risk@ == target_risk@
                    &&& a.turnover_penalty == turnover_penalty
                    &&& forall|i: int|
                        0 <= i < a.current_weights.len() ==> #[trigger] a.current_weights@[i]
                            == ONE as int / target_risk.len() as int
                },
                Err(e) => sum_all(target_risk@) <= 0 && e@
                    == "Target risk must sum to positive value"@,
            },
    {
        let n: usize = target_risk.len();
        let mut sum: i128 = 0;
        let mut i: usize = 0;
        assert(target_risk@.subrange(0, 0) =~= Seq::<i64>::empty());
        while i < n
            invariant
                i <= n,
                n == target_risk.len(),
                sum == sum_all(target_risk@.subrange(0, i as int)),
                -(i * 0x8000_0000_0000_0000) <= sum <= i * 0x8000_0000_0000_0000,
            decreases n - i,
        {
            proof {
                let next = target_risk@.subrange(0, i + 1);
                assert(next.drop_last() =~= target_risk@.subrange(0, i as int));
                assert(next.last() == target_risk@[i as int]);
            }
            sum = sum + target_risk[i] as i128;
            i = i + 1;
        }
        assert(target_risk@.subrange(0, i as int) =~= target_risk@);
        if sum <= 0 {
            return Err("Target risk must sum to positive value");
        }
        let equal: i64 = (100_000_000 / n as u64) as i64;
        proof {
            let (e, m) = (equal as int, n as int);
            assert(0 <= 100_000_000int / m <= 100_000_000) by (nonlinear_arith)
                requires
                    m >= 1,
            ;
        }
        let mut current_weights: Vec<i64> = Vec::new();
        let mut k: usize = 0;
        while k < n
            invariant
                k <= n,
                current_weights.len() == k,
                forall|j: int| 0 <= j < k ==> #[trigger] current_weights@[j] == equal,
            decreases n - k,
        {
            current_weights.push(equal);
            k = k + 1;
        }
        Ok(RiskBudgetingAllocator { target_risk, current_weights, turnover_penalty })
    }

    /// Update weights with turnover penalty applied
    ///
    /// The penalty discourages excessive rebalancing: the more would be
    /// traded, the closer the weights stay to the current ones.
    pub fn update_weights(&mut self, new_weights: &Vec<i64>) -> (r: Result<
        Vec<i64>,
        &'static str,
    >)
        requires
            old(self).wf(),
            old(self).accepts(new_weights@),
        ensures
            final(self).wf(),
            final(self).target_risk == old(self).target_risk,
            final(self).turnover_penalty == old(self).turnover_penalty,
            match r {
                Ok(w) => {
                    &&& new_weights.len() == old(self).current_weights.len()
                    &&& w@ == final(self).current_weights@
                    &&& w@ == normalized(
                        blends(
                            new_weights@,
                            old(self).current_weights@,
                            old(self).turnover_penalty,
                            turnover_penalty::turnover_of(
                                old(self).current_weights@,
                                new_weights@,
                            ),
                            new_weights.len() as int,
                        ),
                    )
                },
                Err(e) => {
                    &&& new_weights.len() != old(self).current_weights.len()
                    &&& e@ == "Weight dimension mismatch"@
                    &&& *final(self) == *old(self)
                },
            },
    {
        if new_weights.len() != self.current_weights.len() {
            return Err("Weight dimension mismatch");
        }
        let n: usize = new_weights.len();
        let ghost current = self.current_weights@;
        let turnover: u64 = measure_turnover(&self.current_weights, new_weights);
        let penalty: u64 = self.turnover_penalty;
        proof {
            let (p, t) = (penalty as int, turnover as int);
            assert(0 <= p * t <= 0x4_0000_0000 * 0x10_0000_0000) by (nonlinear_arith)
                requires
                    0 <= p <= 0x4_0000_0000,
                    0 <= t <= 0x10_0000_0000,
            ;
        }
        let pull: i128 = penalty as i128 * turnover as i128;
        let ghost parts = blends(new_weights@, current, penalty, turnover as int, n as int);
        let mut blended: Vec<u128> = Vec::new();
        let mut whole: u128 = 0;
        let mut i: usize = 0;
        assert(parts.subrange(0, 0) =~= Seq::<int>::empty());
        while i < n
            invariant
                i <= n <= 0x1000_0000,
                n == new_weights.len(),
                n == self.current_weights.len(),
                self.wf(),
                *self == *old(self),
                old(self).accepts(new_weights@),
                current == self.current_weights@,
                0 <= pull <= 0x4_0000_0000 * 0x10_0000_0000,
                pull == penalty * turnover,
                parts == blends(new_weights@, current, penalty, turnover as int, n as int),
                blended.len() == i,
                whole == math::sum_of(parts.subrange(0, i as int)),
                whole <= i * 0x4_0000_0000_0000_0000_0000_0000,
                forall|k: int|
                    0 <= k < i ==> #[trigger] blended@[k] == parts[k] && blended@[k]
                        <= 0x4_0000_0000_0000_0000_0000_0000,
            decreases n - i,
        {
            let c: i64 = self.current_weights[i];
            let w: i64 = new_weights[i];
            proof {
                let (x, y) = (c as int, pull as int);
                assert(0 <= x * y <= 100_000_000 * (0x4_0000_0000 * 0x10_0000_0000))
                    by (nonlinear_arith)
                    requires
                        0 <= x <= 100_000_000,
                        0 <= y <= 0x4_0000_0000 * 0x10_0000_0000,
                ;
                let next = parts.subrange(0, i + 1);
                assert(next.drop_last() =~= parts.subrange(0, i as int));
                assert(next.last() == parts[i as int]);
            }
            let value: i128 = w as i128 * 10_000_000_000_000_000 + c as i128 * pull;
            let part: u128 = if value > 0 {
                value as u128
            } else {
                0
            };
            blended.push(part);
            whole = whole + part;
            i = i + 1;
        }
        assert(parts.subrange(0, i as int) =~= parts);
        let mut weights: Vec<i64> = Vec::new();
        let mut j: usize = 0;
        while j < n
            invariant
                j <= n,
                n == parts.len(),
                blended.len() == n,
                weights.len() == j,
                whole == math::sum_of(parts),
                forall|k: int|
                    0 <= k < n ==> #[trigger] blended@[k] == parts[k] && blended@[k]
                        <= 0x4_0000_0000_0000_0000_0000_0000,
                forall|k: int| 0 <= k < n ==> #[trigger] parts[k] >= 0,
                forall|k: int|
                    0 <= k < j ==> #[trigger] weights@[k] == normalized(parts)[k] && 0
                        <= weights@[k] <= ONE,
            decreases n - j,
        {
            let part: u128 = blended[j];
            if whole > 0 {
                proof {
                    lemma_part(parts, j as int);
                    lemma_quotient(part as int, whole as int);
                }
                weights.push((part * 100_000_000 / whole) as i64);
            } else {
                weights.push(0);
            }
            j = j + 1;
        }
        assert(weights@ =~= normalized(parts));
        self.current_weights = weights.clone();
        Ok(weights)
    }

    /// Get current weights
    pub fn get_weights_snapshot(&self) -> (r: Vec<i64>)
        ensures
            r@ == self.current_weights@,
    {
        self.current_weights.clone()
    }
}

/// A part is no more than the whole.
proof fn lemma_part(parts: Seq<int>, i: int)
    requires
        0 <= i < parts.len(),
        forall|k: int| 0 <= k < parts.len() ==> #[trigger] parts[k] >= 0,
    ensures
        0 <= parts[i] <= math::sum_of(parts),
{
    math::lemma_prefix_sum(parts, i);
    math::lemma_prefix_sum(parts, i + 1);
    assert(parts.subrange(0, i + 1).drop_last() =~= parts.subrange(0, i));
}

proof fn lemma_quotient(part: int, whole: int)
    requires
        0 <= part <= whole,
        whole > 0,
    ensures
        0 <= part * 100_000_000 / whole <= 100_000_000,
        whole * (part * 100_000_000 / whole) <= part * 100_000_000,
        part * 100_000_000 < whole * (part * 100_000_000 / whole) + whole,
{
    let x = part * 100_000_000;
    vstd::arithmetic::div_mod::lemma_fundamental_div_mod(x, whole);
    let q = x / whole;
    assert(0 <= q <= 100_000_000) by (nonlinear_arith)
        requires
            0 <= x <= whole * 100_000_000,
            x == whole * q + x % whole,
            0 <= x % whole < whole,
            whole > 0,
    ;
}

/// The first `n` weights sum to the first parts' share, up to what rounding
/// takes.
proof fn lemma_share_sum(parts: Seq<int>, n: int)
    requires
        0 <= n <= parts.len(),
        math::sum_of(parts) > 0,
        forall|k: int| 0 <= k < parts.len() ==> #[trigger] parts[k] >= 0,
    ensures
        ({
            let whole = math::sum_of(parts);
            let sum = whole * sum_all(normalized(parts).subrange(0, n));
            let exact = 100_000_000 * math::sum_of(parts.subrange(0, n));
            &&& sum <= exact
            &&& exact <= sum + n * whole
            &&& n > 0 ==> exact < sum + n * whole
        }),
    decreases n,
{
    let whole = math::sum_of(parts);
    let w = normalized(parts);
    if n == 0 {
        assert(w.subrange(0, 0) =~= Seq::<i64>::empty());
        assert(parts.subrange(0, 0) =~= Seq::<int>::empty());
        assert(whole * 0 == 0) by (nonlinear_arith);
        assert(0 * whole == 0) by (nonlinear_arith);
        assert(sum_all(w.subrange(0, 0)) == 0);
        assert(math::sum_of(parts.subrange(0, 0)) == 0);
    } else {
        lemma_share_sum(parts, n - 1);
        lemma_part(parts, n - 1);
        lemma_quotient(parts[n - 1], whole);
        assert(w.subrange(0, n).drop_last() =~= w.subrange(0, n - 1));
        assert(parts.subrange(0, n).drop_last() =~= parts.subrange(0, n - 1));
        let (a, q) = (sum_all(w.subrange(0, n - 1)), parts[n - 1] * 100_000_000 / whole);
        assert(w[n - 1] == q);
        assert(whole * (a + q) == whole * a + whole * q) by (nonlinear_arith);
        assert(n * whole == (n - 1) * whole + whole) by (nonlinear_arith);
    }
}

/// Normalized weights sum to one, less at most what rounding each of them
/// down takes.
pub proof fn law_weights_sum_to_one(parts: Seq<int>)
    requires
        parts.len() > 0,
        math::sum_of(parts) > 0,
        forall|k: int| 0 <= k < parts.len() ==> #[trigger] parts[k] >= 0,
    ensures
        ONE - parts.len() < sum_all(normalized(parts)) <= ONE,
{
    let n = parts.len() as int;
    lemma_share_sum(parts, n);
    assert(normalized(parts).subrange(0, n) =~= normalized(parts));
    assert(parts.subrange(0, n) =~= parts);
    let (whole, sum) = (math::sum_of(parts), sum_all(normalized(parts)));
    assert(100_000_000 - n < sum <= 100_000_000) by (nonlinear_arith)
        requires
            whole > 0,
            whole * sum <= 100_000_000 * whole,
            100_000_000 * whole < whole * sum + n * whole,
    ;
}

/// Capital is split by inverse variance: the left share times the left variance
/// is what is left of one times the right variance, so the less risky of two
/// clusters never gets the smaller share. Clusters without any risk share
/// evenly.
pub proof fn law_share_is_inverse_variance(left: SignedRatio, right: SignedRatio)
    requires
        0 < left.den <= 124_750,
        0 < right.den <= 124_750,
        math::abs_int(left.num as int) <= 124_750 * 0x1_0000_0000_0000_0000,
        math::abs_int(right.num as int) <= 124_750 * 0x1_0000_0000_0000_0000,
    ensures
        ({
            let s = share_of(left, right);
            let l = left.num * right.den;
            let r = right.num * left.den;
            &&& s.den > 0
            &&& l + r > 0 ==> s.num * l == (s.den - s.num) * r
            &&& l + r <= 0 ==> 2 * s.num == s.den
            &&& l > 0 && r > 0 ==> 0 < s.num < s.den
            &&& l + r > 0 && l <= r ==> 2 * s.num >= s.den
            &&& l + r > 0 && l >= r ==> 2 * s.num <= s.den
        }),
{
    lemma_share(left.num as int, right.den as int);
    lemma_share(right.num as int, left.den as int);
    let l = left.num * right.den;
    let r = right.num * left.den;
    assert(r * l == ((l + r) - r) * r) by (nonlinear_arith);
}

/// Every correlation stands at its own place: a new one for two assets changes
/// theirs, in that order, and no other. What is unknown counts as one.
pub proof fn law_correlation_of_pair(
    matrix: Seq<i64>,
    n: int,
    i: int,
    j: int,
    c: i64,
    a: int,
    b: int,
)
    requires
        matrix.len() == n * n,
        0 <= i < n,
        0 <= j < n,
        0 <= a,
        0 <= b,
    ensures
        i * n + j < matrix.len(),
        correlation(matrix.update(i * n + j, c), n, i, j) == c,
        (a, b) != (i, j) ==> correlation(matrix.update(i * n + j, c), n, a, b) == correlation(
            matrix,
            n,
            a,
            b,
        ),
        a >= n || b >= n ==> correlation(matrix, n, a, b) == 100_000_000,
{
    assert(0 <= i * n + j < n * n) by (nonlinear_arith)
        requires
            0 <= i < n,
            0 <= j < n,
    ;
    if a < n && b < n {
        assert(0 <= a * n + b < n * n) by (nonlinear_arith)
            requires
                0 <= a < n,
                0 <= b < n,
        ;
        if (a, b) != (i, j) {
            assert(a * n + b != i * n + j) by (nonlinear_arith)
                requires
                    0 <= j < n,
                    0 <= b < n,
                    a != i || b != j,
            ;
        }
    }
}

proof fn lemma_sum_with_one_changed(
    m1: Seq<i64>,
    m2: Seq<i64>,
    n: int,
    s: Seq<usize>,
    asset: usize,
    i: int,
)
    requires
        forall|a: int|
            0 <= a < s.len() && a != i ==> correlation(m1, n, #[trigger] s[a] as int, asset as int)
                == correlation(m2, n, s[a] as int, asset as int),
    ensures
        sum_with(m2, n, s, asset) - sum_with(m1, n, s, asset) == (if 0 <= i < s.len() {
            correlation(m2, n, s[i] as int, asset as int) - correlation(
                m1,
                n,
                s[i] as int,
                asset as int,
            )
        } else {
            0
        }),
    decreases s.len(),
{
    if s.len() > 0 {
        let t = s.drop_last();
        assert forall|a: int| 0 <= a < t.len() && a != i implies correlation(
            m1,
            n,
            #[trigger] t[a] as int,
            asset as int,
        ) == correlation(m2, n, t[a] as int, asset as int) by {
            assert(t[a] == s[a]);
        }
        lemma_sum_with_one_changed(m1, m2, n, t, asset, i);
        assert(s.last() == s[s.len() - 1]);
    }
}

proof fn lemma_pair_sum_one_changed(
    m1: Seq<i64>,
    m2: Seq<i64>,
    n: int,
    s: Seq<usize>,
    i: int,
    j: int,
)
    requires
        forall|a: int, b: int|
            0 <= a < b < s.len() && (a, b) != (i, j) ==> correlation(
                m1,
                n,
                #[trigger] s[a] as int,
                #[trigger] s[b] as int,
            ) == correlation(m2, n, s[a] as int, s[b] as int),
    ensures
        pair_sum(m2, n, s) - pair_sum(m1, n, s) == (if 0 <= i < j < s.len() {
            correlation(m2, n, s[i] as int, s[j] as int) - correlation(
                m1,
                n,
                s[i] as int,
                s[j] as int,
            )
        } else {
            0
        }),
    decreases s.len(),
{
    if s.len() > 0 {
        let t = s.drop_last();
        let last = s.last();
        assert(last == s[s.len() - 1]);
        assert forall|a: int, b: int| 0 <= a < b < t.len() && (a, b) != (i, j) implies correlation(
            m1,
            n,
            #[trigger] t[a] as int,
            #[trigger] t[b] as int,
        ) == correlation(m2, n, t[a] as int, t[b] as int) by {
            assert(t[a] == s[a] && t[b] == s[b]);
        }
        lemma_pair_sum_one_changed(m1, m2, n, t, i, j);
        let k = if j == s.len() - 1 {
            i
        } else {
            -1
        };
        assert forall|a: int| 0 <= a < t.len() && a != k implies correlation(
            m1,
            n,
            #[trigger] t[a] as int,
            last as int,
        ) == correlation(m2, n, t[a] as int, last as int) by {
            assert(t[a] == s[a]);
            assert((a, s.len() - 1) != (i, j));
        }
        lemma_sum_with_one_changed(m1, m2, n, t, last, k);
    }
}

proof fn lemma_pair_sum_bound(matrix: Seq<i64>, n: int, s: Seq<usize>)
    requires
        s.len() <= MAX_ASSETS,
    ensures
        2 * math::abs_int(pair_sum(matrix, n, s)) <= (s.len() * (s.len() - 1))
            * 0x8000_0000_0000_0000,
        s.len() * (s.len() - 1) / 2 <= 124_750,
        s.len() >= 2 ==> s.len() * (s.len() - 1) / 2 >= 1,
    decreases s.len(),
{
    let k = s.len() as int;
    assert(0 <= k <= 500 ==> k * (k - 1) <= 249_500) by (nonlinear_arith);
    assert(k >= 2 ==> k * (k - 1) >= 2) by (nonlinear_arith);
    if s.len() > 0 {
        lemma_pair_sum_bound(matrix, n, s.drop_last());
        lemma_sum_with_bound(matrix, n, s.drop_last(), s.last());
        let x = k - 1;
        assert(k * (k - 1) == x * (x - 1) + 2 * x) by (nonlinear_arith)
            requires
                x == k - 1,
        ;
    } else {
        assert(k * (k - 1) == 0) by (nonlinear_arith)
            requires
                k == 0,
        ;
    }
}

proof fn lemma_sum_with_bound(matrix: Seq<i64>, n: int, s: Seq<usize>, asset: usize)
    ensures
        math::abs_int(sum_with(matrix, n, s, asset)) <= s.len() * 0x8000_0000_0000_0000,
    decreases s.len(),
{
    if s.len() > 0 {
        lemma_sum_with_bound(matrix, n, s.drop_last(), asset);
    }
}

/// The variance of a cluster follows each of its correlations, and all of them
/// alike: a correlation that rises lowers the variance by as much, spread over
/// the pairs of the cluster.
pub proof fn law_variance_follows_each_correlation(
    m1: Seq<i64>,
    m2: Seq<i64>,
    n: int,
    s: Seq<usize>,
    i: int,
    j: int,
)
    requires
        s.len() <= MAX_ASSETS,
        0 <= i < j < s.len(),
        forall|a: int, b: int|
            0 <= a < b < s.len() && (a, b) != (i, j) ==> correlation(
                m1,
                n,
                #[trigger] s[a] as int,
                #[trigger] s[b] as int,
            ) == correlation(m2, n, s[a] as int, s[b] as int),
    ensures
        ({
            let (v1, v2) = (variance_of(m1, n, s), variance_of(m2, n, s));
            &&& 2 * v1.den == s.len() * (s.len() - 1)
            &&& v2.den == v1.den
            &&& v1.num - v2.num == correlation(m2, n, s[i] as int, s[j] as int) - correlation(
                m1,
                n,
                s[i] as int,
                s[j] as int,
            )
        }),
{
    lemma_pair_sum_one_changed(m1, m2, n, s, i, j);
    lemma_pair_sum_bound(m1, n, s);
    lemma_pair_sum_bound(m2, n, s);
    let k = s.len() as int;
    lemma_even_product(k);
}

proof fn lemma_even_product(k: int)
    requires
        k >= 0,
    ensures
        k * (k - 1) % 2 == 0,
    decreases k,
{
    if k > 0 {
        lemma_even_product(k - 1);
        let x = k - 1;
        assert(k * (k - 1) == x * (x - 1) + 2 * x) by (nonlinear_arith)
            requires
                x == k - 1,
        ;
    } else {
        assert(k * (k - 1) == 0) by (nonlinear_arith)
            requires
                k == 0,
        ;
    }
}

/// Where all pairs of a cluster are equally correlated, its variance is one less
/// that correlation, and a cluster without pairs has a variance of one.
pub proof fn law_variance_of_equal_correlations(matrix: Seq<i64>, n: int, s: Seq<usize>, c: i64)
    requires
        s.len() <= MAX_ASSETS,
        forall|a: int, b: int|
            0 <= a < b < s.len() ==> correlation(
                matrix,
                n,
                #[trigger] s[a] as int,
                #[trigger] s[b] as int,
            ) == c,
    ensures
        ({
            let v = variance_of(matrix, n, s);
            &&& v.den > 0
            &&& v.num == (if s.len() < 2 {
                100_000_000 * v.den
            } else {
                (100_000_000 - c) * v.den
            })
        }),
{
    lemma_pair_sum_bound(matrix, n, s);
    lemma_equal_pairs(matrix, n, s, c);
    let k = s.len() as int;
    lemma_even_product(k);
    let pairs = k * (k - 1) / 2;
    assert(pairs * 100_000_000 - pairs * c == (100_000_000 - c) * pairs) by (nonlinear_arith);
}

proof fn lemma_equal_pairs(matrix: Seq<i64>, n: int, s: Seq<usize>, c: i64)
    requires
        forall|a: int, b: int|
            0 <= a < b < s.len() ==> correlation(
                matrix,
                n,
                #[trigger] s[a] as int,
                #[trigger] s[b] as int,
            ) == c,
    ensures
        pair_sum(matrix, n, s) == (s.len() * (s.len() - 1) / 2) * c,
    decreases s.len(),
{
    let k = s.len() as int;
    if k > 0 {
        let t = s.drop_last();
        assert(s.last() == s[k - 1]);
        assert forall|a: int, b: int| 0 <= a < b < t.len() implies correlation(
            matrix,
            n,
            #[trigger] t[a] as int,
            #[trigger] t[b] as int,
        ) == c by {
            assert(t[a] == s[a] && t[b] == s[b]);
        }
        lemma_equal_pairs(matrix, n, t, c);
        assert forall|a: int| 0 <= a < t.len() implies correlation(
            matrix,
            n,
            #[trigger] t[a] as int,
            s.last() as int,
        ) == c by {
            assert(t[a] == s[a]);
            assert(correlation(matrix, n, s[a] as int, s[k - 1] as int) == c);
        }
        lemma_equal_row(matrix, n, t, s.last(), c);
        lemma_even_product(k);
        lemma_even_product(k - 1);
        assert(k * (k - 1) == (k - 1) * (k - 2) + 2 * (k - 1)) by (nonlinear_arith);
        let (p, q) = ((k - 1) * (k - 2) / 2, k * (k - 1) / 2);
        assert(q * c == p * c + (k - 1) * c) by (nonlinear_arith)
            requires
                q == p + (k - 1),
        ;
    } else {
        assert(0 * c == 0) by (nonlinear_arith);
        assert(k * (k - 1) == 0) by (nonlinear_arith)
            requires
                k == 0,
        ;
    }
}

proof fn lemma_equal_row(matrix: Seq<i64>, n: int, s: Seq<usize>, asset: usize, c: i64)
    requires
        forall|a: int|
            0 <= a < s.len() ==> correlation(matrix, n, #[trigger] s[a] as int, asset as int) == c,
    ensures
        sum_with(matrix, n, s, asset) == s.len() * c,
    decreases s.len(),
{
    if s.len() > 0 {
        let t = s.drop_last();
        assert forall|a: int| 0 <= a < t.len() implies correlation(
            matrix,
            n,
            #[trigger] t[a] as int,
            asset as int,
        ) == c by {
            assert(t[a] == s[a]);
        }
        lemma_equal_row(matrix, n, t, asset, c);
        assert(s.last() == s[s.len() - 1]);
        let k = s.len() as int;
        assert(k * c == (k - 1) * c + c) by (nonlinear_arith);
    } else {
        assert(0 * c == 0) by (nonlinear_arith);
    }
}

/// Whether a cluster was joined to another by one of the first `k` merges.
pub open spec fn gone(merges: Seq<Merge>, k: int, x: usize) -> bool {
    exists|j: int| 0 <= j < k && (#[trigger] merges[j]).joined == x
}

/// Whether a cluster still stands for itself before merge `k`.
pub open spec fn standing(active: Seq<usize>, merges: Seq<Merge>, k: int, x: usize) -> bool {
    active.contains(x) && !gone(merges, k, x)
}

/// Whether merge `k` joins two clusters that still stand, at a distance that is
/// the correlation of the two, and no two standing clusters have a smaller one;
/// of pairs as close it takes the first.
pub open spec fn takes_least(
    matrix: Seq<i64>,
    n: int,
    active: Seq<usize>,
    merges: Seq<Merge>,
    k: int,
) -> bool {
    let m = merges[k];
    &&& standing(active, merges, k, m.kept)
    &&& standing(active, merges, k, m.joined)
    &&& m.kept < m.joined
    &&& m.distance == correlation(matrix, n, m.kept as int, m.joined as int)
    &&& forall|c: usize, d: usize|
        c < d && #[trigger] standing(active, merges, k, c) && #[trigger] standing(
            active,
            merges,
            k,
            d,
        ) ==> {
            &&& m.distance <= correlation(matrix, n, c as int, d as int)
            &&& m.distance == correlation(matrix, n, c as int, d as int) ==> m.kept < c || (m.kept
                == c && m.joined <= d)
        }
}

proof fn lemma_merges_take_least(
    matrix: Seq<i64>,
    n: int,
    active: Seq<usize>,
    merges: Seq<Merge>,
)
    requires
        active.len() > 0,
        forall|a: int, b: int| 0 <= a < b < active.len() ==> #[trigger] active[a] < #[trigger] active[b],
        links(matrix, n, active, merges),
    ensures
        merges.len() == active.len() - 1,
        forall|k: int|
            0 <= k < merges.len() ==> #[trigger] takes_least(matrix, n, active, merges, k),
    decreases active.len(),
{
    if active.len() > 1 {
        let (a, b) = choose|a: int, b: int| #[trigger]
            closest(matrix, n, active, a, b) && merges[0] == (Merge {
                kept: active[a],
                joined: active[b],
                distance: pair_distance(matrix, n, active, a, b),
            }) && links(matrix, n, active.remove(b), merges.subrange(1, merges.len() as int));
        let rest = active.remove(b);
        let tail = merges.subrange(1, merges.len() as int);
        assert forall|c: int, d: int| 0 <= c < d < rest.len() implies #[trigger] rest[c]
            < #[trigger] rest[d] by {
            let c2 = if c < b {
                c
            } else {
                c + 1
            };
            let d2 = if d < b {
                d
            } else {
                d + 1
            };
            assert(rest[c] == active[c2] && rest[d] == active[d2]);
        }
        lemma_merges_take_least(matrix, n, rest, tail);
        assert forall|k: int, x: usize| 1 <= k <= merges.len() implies #[trigger] standing(
            active,
            merges,
            k,
            x,
        ) == standing(rest, tail, k - 1, x) by {
            if standing(active, merges, k, x) {
                let i = choose|i: int| 0 <= i < active.len() && active[i] == x;
                assert(merges[0].joined != x);
                if i < b {
                    assert(rest[i] == x);
                } else {
                    assert(i != b);
                    assert(rest[i - 1] == x);
                }
                if gone(tail, k - 1, x) {
                    let j = choose|j: int| 0 <= j < k - 1 && (#[trigger] tail[j]).joined == x;
                    assert(merges[j + 1] == tail[j]);
                }
            }
            if standing(rest, tail, k - 1, x) {
                let i = choose|i: int| 0 <= i < rest.len() && rest[i] == x;
                if i < b {
                    assert(active[i] == x);
                } else {
                    assert(active[i + 1] == x);
                }
                if gone(merges, k, x) {
                    let j = choose|j: int| 0 <= j < k && (#[trigger] merges[j]).joined == x;
                    if j > 0 {
                        assert(tail[j - 1] == merges[j]);
                    } else {
                        assert(active[b] == x);
                    }
                }
            }
        }
        assert forall|k: int| 0 <= k < merges.len() implies #[trigger] takes_least(
            matrix,
            n,
            active,
            merges,
            k,
        ) by {
            if k == 0 {
                assert(active.contains(active[a]) && active.contains(active[b]));
                assert forall|c: usize, d: usize|
                    c < d && #[trigger] standing(active, merges, 0, c) && #[trigger] standing(
                        active,
                        merges,
                        0,
                        d,
                    ) implies {
                    &&& merges[0].distance <= correlation(matrix, n, c as int, d as int)
                    &&& merges[0].distance == correlation(matrix, n, c as int, d as int)
                        ==> merges[0].kept < c || (merges[0].kept == c && merges[0].joined <= d)
                } by {
                    let i = choose|i: int| 0 <= i < active.len() && active[i] == c;
                    let j = choose|j: int| 0 <= j < active.len() && active[j] == d;
                    if i >= j {
                        if j < i {
                            assert(active[j] < active[i]);
                        }
                    }
                    assert(pair_distance(matrix, n, active, i, j) == correlation(
                        matrix,
                        n,
                        c as int,
                        d as int,
                    ));
                    if !pair_before(i, j, a, b) {
                        if a < i {
                            assert(active[a] < active[i]);
                        } else if b < j {
                            assert(active[b] < active[j]);
                        }
                    }
                }
            } else {
                assert(takes_least(matrix, n, rest, tail, k - 1));
                assert(merges[k] == tail[k - 1]);
                assert(standing(active, merges, k, merges[k].kept));
                assert(standing(active, merges, k, merges[k].joined));
                assert forall|c: usize, d: usize|
                    c < d && #[trigger] standing(active, merges, k, c) && #[trigger] standing(
                        active,
                        merges,
                        k,
                        d,
                    ) implies {
                    &&& merges[k].distance <= correlation(matrix, n, c as int, d as int)
                    &&& merges[k].distance == correlation(matrix, n, c as int, d as int)
                        ==> merges[k].kept < c || (merges[k].kept == c && merges[k].joined <= d)
                } by {
                    assert(standing(rest, tail, k - 1, c));
                    assert(standing(rest, tail, k - 1, d));
                }
            }
        }
    }
}

/// The linkage joins all assets by one merge less than there are assets, and
/// every merge joins the two clusters of least correlation among those that
/// still stand.
pub proof fn law_closest_clusters_merge_first(matrix: Seq<i64>, n: int, merges: Seq<Merge>)
    requires
        0 < n <= MAX_ASSETS,
        links(matrix, n, places(n), merges),
    ensures
        merges.len() == n - 1,
        forall|x: usize| x < n <==> #[trigger] places(n).contains(x),
        forall|k: int|
            0 <= k < merges.len() ==> #[trigger] takes_least(matrix, n, places(n), merges, k),
{
    lemma_merges_take_least(matrix, n, places(n), merges);
    assert forall|x: usize| x < n implies #[trigger] places(n).contains(x) by {
        assert(places(n)[x as int] == x);
    }
}

proof fn lemma_forest_push(
    forest: Seq<Option<Box<ClusterNode>>>,
    merges: Seq<Merge>,
    m: Merge,
    next_id: int,
)
    ensures
        forest_after(forest, merges.push(m), next_id) == forest_after(
            forest_after(forest, merges, next_id),
            seq![m],
            next_id + merges.len(),
        ),
    decreases merges.len(),
{
    let all = merges.push(m);
    let rest = all.subrange(1, all.len() as int);
    if merges.len() == 0 {
        assert(all =~= seq![m]);
    } else {
        let tail = merges.subrange(1, merges.len() as int);
        assert(rest =~= tail.push(m));
        let g = merges[0];
        let node = joined(
            next_id as usize,
            forest[g.kept as int]->0,
            forest[g.joined as int]->0,
            g.distance,
        );
        let next = forest.update(g.joined as int, None).update(
            g.kept as int,
            Some(Box::new(node)),
        );
        lemma_forest_push(next, tail, m, next_id + 1);
        assert(all[0] == merges[0]);
    }
}

/// A merge makes one cluster of two: the first becomes its left and the second
/// its right part, it stands where the first stood, its size is that of both,
/// and every other cluster stays.
pub proof fn law_merge_makes_one_cluster(
    forest: Seq<Option<Box<ClusterNode>>>,
    merges: Seq<Merge>,
    m: Merge,
    next_id: int,
)
    requires
        0 <= next_id && next_id + merges.len() <= usize::MAX,
        forest_after(forest, merges, next_id).len() == forest.len(),
        m.kept < forest.len(),
        m.joined < forest.len(),
        m.kept != m.joined,
        forest_after(forest, merges, next_id)[m.kept as int] is Some,
        forest_after(forest, merges, next_id)[m.joined as int] is Some,
    ensures
        ({
            let before = forest_after(forest, merges, next_id);
            let after = forest_after(forest, merges.push(m), next_id);
            let (left, right) = (before[m.kept as int]->0, before[m.joined as int]->0);
            &&& forest_after(forest, Seq::<Merge>::empty(), next_id) == forest
            &&& after.len() == before.len()
            &&& after[m.joined as int] is None
            &&& after[m.kept as int] matches Some(c) && {
                &&& c.left == Some(left)
                &&& c.right == Some(right)
                &&& c.id == next_id + merges.len()
                &&& c.distance == m.distance
                &&& left.size + right.size <= usize::MAX ==> c.size == left.size + right.size
            }
            &&& forall|i: int|
                0 <= i < before.len() && i != m.kept && i != m.joined ==> #[trigger] after[i]
                    == before[i]
        }),
{
    lemma_forest_push(forest, merges, m, next_id);
    let one = seq![m];
    assert(one.subrange(1, 1) =~= Seq::<Merge>::empty());
    reveal_with_fuel(forest_after, 2);
}

/// The assets of a cluster are those of its left part and then those of its
/// right part; a leaf is an asset of its own.
pub proof fn law_assets_of_a_cluster(node: ClusterNode, n: int)
    ensures
        node.left is None && node.right is None && node.id < n ==> assets_of(node, n) == seq![
            node.id,
        ],
        node.left matches Some(l) ==> (node.right matches Some(r) ==> assets_of(node, n)
            == assets_of(*l, n) + assets_of(*r, n)),
{
}

/// Whether every cluster below a node is a leaf or has two parts.
pub open spec fn is_binary(node: ClusterNode) -> bool
    decreases node,
{
    match (node.left, node.right) {
        (None, None) => true,
        (Some(l), Some(r)) => is_binary(*l) && is_binary(*r),
        _ => false,
    }
}

/// The assets that the steps of a plan give a weight, in their order.
pub open spec fn assigned(plan: Seq<Step>) -> Seq<usize>
    decreases plan.len(),
{
    if plan.len() == 0 {
        Seq::empty()
    } else {
        match plan.last() {
            Step::Assign { asset } => assigned(plan.drop_last()).push(asset),
            Step::Scale { .. } => assigned(plan.drop_last()),
        }
    }
}

proof fn lemma_assigned_concat(p: Seq<Step>, q: Seq<Step>)
    ensures
        assigned(p + q) == assigned(p) + assigned(q),
    decreases q.len(),
{
    if q.len() == 0 {
        assert(p + q =~= p);
        assert(assigned(p) + assigned(q) =~= assigned(p));
    } else {
        lemma_assigned_concat(p, q.drop_last());
        assert((p + q).drop_last() =~= p + q.drop_last());
        assert((p + q).last() == q.last());
        assert(assigned(p + q) =~= assigned(p) + assigned(q));
    }
}

/// A plan gives a weight to every asset of the cluster, in their order, and to
/// no other.
pub proof fn law_plan_assigns_all_assets(
    matrix: Seq<i64>,
    n: int,
    node: ClusterNode,
    start: int,
    end: int,
)
    requires
        is_binary(node),
    ensures
        assigned(bisection(matrix, n, node, start, end)) == assets_of(node, n),
    decreases node,
{
    let plan = bisection(matrix, n, node, start, end);
    if let (Some(l), Some(r)) = (node.left, node.right) {
        let mid = start + (end - start) / 2;
        law_plan_assigns_all_assets(matrix, n, *l, start, mid);
        law_plan_assigns_all_assets(matrix, n, *r, mid, end);
        let (x, y) = (
            bisection(matrix, n, *l, start, mid),
            bisection(matrix, n, *r, mid, end),
        );
        lemma_assigned_concat(x, y);
        assert(plan.drop_last() =~= x + y);
    } else {
        reveal_with_fuel(assigned, 2);
        if node.id < n {
            assert(plan.drop_last() =~= Seq::<Step>::empty());
            assert(assigned(plan) =~= seq![node.id]);
        }
    }
}

/// The last step for a cluster of two parts splits its whole range in halves
/// and gives the left half a share by inverse variance of the two parts; before
/// it stand the steps of the parts, each in its half.
pub proof fn law_plan_splits_between_parts(
    matrix: Seq<i64>,
    n: int,
    node: ClusterNode,
    start: int,
    end: int,
)
    requires
        0 <= start <= end <= usize::MAX,
        assets_of(node, n).len() <= MAX_ASSETS,
        node.left is Some,
        node.right is Some,
    ensures
        bisection(matrix, n, node, start, end).len() > 0,
        bisection(matrix, n, node, start, end).last() matches Step::Scale {
            start: s,
            mid,
            end: e,
            left,
        } && {
            let plan = bisection(matrix, n, node, start, end);
            let vl = variance_of(matrix, n, assets_of(*(node.left->0), n));
            let vr = variance_of(matrix, n, assets_of(*(node.right->0), n));
            let (l, r) = (vl.num * vr.den, vr.num * vl.den);
            &&& s == start
            &&& e == end
            &&& 0 <= (end - mid) - (mid - start) <= 1
            &&& left.den > 0
            &&& l + r > 0 ==> left.num * l == (left.den - left.num) * r
            &&& l + r <= 0 ==> 2 * left.num == left.den
            &&& plan.drop_last() == bisection(matrix, n, *(node.left->0), start, mid as int)
                + bisection(matrix, n, *(node.right->0), mid as int, end)
        },
{
    let (nl, nr) = (node.left->0, node.right->0);
    assert(assets_of(node, n) == assets_of(*nl, n) + assets_of(*nr, n));
    lemma_variance_range(matrix, n, assets_of(*nl, n));
    lemma_variance_range(matrix, n, assets_of(*nr, n));
    law_share_is_inverse_variance(
        variance_of(matrix, n, assets_of(*nl, n)),
        variance_of(matrix, n, assets_of(*nr, n)),
    );
    let mid = start + (end - start) / 2;
    let plan = bisection(matrix, n, node, start, end);
    assert(plan.drop_last() =~= bisection(matrix, n, *nl, start, mid) + bisection(
        matrix,
        n,
        *nr,
        mid,
        end,
    ));
}

proof fn lemma_variance_range(matrix: Seq<i64>, n: int, s: Seq<usize>)
    requires
        s.len() <= MAX_ASSETS,
    ensures
        0 < variance_of(matrix, n, s).den <= 124_750,
        math::abs_int(variance_of(matrix, n, s).num as int) <= 124_750 * 0x1_0000_0000_0000_0000,
{
    lemma_pair_sum_bound(matrix, n, s);
}

/// A penalized weight is off the current one by what the new weight is off,
/// against a whole that grows with penalty and turnover: the more would be
/// traded, the closer it stays. It is never below zero.
pub proof fn law_penalty_pulls_to_current(new: i64, current: i64, penalty: u64, turnover: int)
    requires
        current >= 0,
        turnover >= 0,
    ensures
        ({
            let whole = 10_000_000_000_000_000 + penalty * turnover;
            let b = blend(new, current, penalty, turnover);
            &&& b >= 0
            &&& b > 0 || new >= 0 ==> b - current * whole == (new - current)
                * 10_000_000_000_000_000
            &&& b == 0 ==> current * whole + (new - current) * 10_000_000_000_000_000 <= 0
        }),
{
    let p = penalty * turnover;
    let k: int = 10_000_000_000_000_000;
    assert(p >= 0) by (nonlinear_arith)
        requires
            p == penalty * turnover,
            turnover >= 0,
            penalty >= 0,
    ;
    assert(current * p >= 0) by (nonlinear_arith)
        requires
            p >= 0,
            current >= 0,
    ;
    assert(new * k + current * p - current * (k + p) == (new - current) * k) by (nonlinear_arith);
    assert(current * (k + p) + (new - current) * k == new * k + current * p) by (nonlinear_arith);
}

/// Weights are the parts' shares of the whole, rounded down to the unit, so
/// they keep the order of the parts.
pub proof fn law_weights_are_shares(parts: Seq<int>, i: int, j: int)
    requires
        0 <= i < parts.len(),
        0 <= j < parts.len(),
        forall|k: int| 0 <= k < parts.len() ==> #[trigger] parts[k] >= 0,
    ensures
        normalized(parts).len() == parts.len(),
        ({
            let w = normalized(parts)[i];
            let whole = math::sum_of(parts);
            &&& whole > 0 ==> w * whole <= parts[i] * ONE < (w + 1) * whole
            &&& whole <= 0 ==> w == 0
        }),
        parts[i] <= parts[j] ==> normalized(parts)[i] <= normalized(parts)[j],
{
    let whole = math::sum_of(parts);
    if whole > 0 {
        lemma_part(parts, i);
        lemma_part(parts, j);
        lemma_quotient(parts[i], whole);
        lemma_quotient(parts[j], whole);
        let (q, r) = (parts[i] * 100_000_000 / whole, parts[j] * 100_000_000 / whole);
        assert(q * whole == whole * q && (q + 1) * whole == whole * q + whole) by (nonlinear_arith);
        if parts[i] <= parts[j] {
            assert(q <= r) by (nonlinear_arith)
                requires
                    whole > 0,
                    whole * q <= parts[i] * 100_000_000,
                    parts[j] * 100_000_000 < whole * r + whole,
                    parts[i] <= parts[j],
            ;
        }
    }
}

/// A sum of numbers is that of its parts, and that of one number is the number.
pub proof fn law_sum_of_parts(s: Seq<i64>, t: Seq<i64>, x: i64)
    ensures
        sum_all(s + t) == sum_all(s) + sum_all(t),
        sum_all(seq![x]) == x,
    decreases t.len(),
{
    assert(seq![x].drop_last() =~= Seq::<i64>::empty());
    reveal_with_fuel(sum_all, 2);
    if t.len() == 0 {
        assert(s + t =~= s);
    } else {
        law_sum_of_parts(s, t.drop_last(), x);
        assert((s + t).drop_last() =~= s + t.drop_last());
    }
}

/// A matrix takes eight bytes for every correlation and for every asset.
pub proof fn law_matrix_memory(n: int)
    ensures
        matrix_memory(n) == 8 * (n * (n + 1)),
{
    assert(n * n * 8 + n * 8 == 8 * (n * (n + 1))) by (nonlinear_arith);
}

/// Every weight is blended with the current one of the same asset.
pub proof fn law_blends_go_by_asset(
    new: Seq<i64>,
    current: Seq<i64>,
    penalty: u64,
    turnover: int,
    n: int,
    i: int,
)
    requires
        0 <= i < n,
    ensures
        blends(new, current, penalty, turnover, n).len() == n,
        blends(new, current, penalty, turnover, n)[i] == blend(new[i], current[i], penalty, turnover),
{
}

} // verus!
