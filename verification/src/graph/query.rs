//! Query vocabulary: traversal direction, edge-kind filters, traversal options
//! and traversal result records.

use vstd::prelude::*;

use crate::graph::identity::{EdgeId, NodeId};
use crate::graph::kind::EdgeKind;

verus! {

/// Direction used by neighbor, dependency and traversal queries.
#[derive(Debug, Clone, Copy, PartialEq, Eq, PartialOrd, Ord, Hash, Structural)]
pub enum SemanticGraphTraversalDirection {
    /// Follow outgoing edges from source to target.
    Downstream,
    /// Follow incoming edges from target to source.
    Upstream,
}

/// Position of an edge kind in declaration order.
pub open spec fn edge_kind_rank(kind: EdgeKind) -> nat {
    match kind {
        EdgeKind::Contains => 0,
        EdgeKind::Calls => 1,
        EdgeKind::References => 2,
        EdgeKind::Reads => 3,
        EdgeKind::Writes => 4,
        EdgeKind::Grants => 5,
        EdgeKind::Includes => 6,
        EdgeKind::Extends => 7,
        EdgeKind::DependsOn => 8,
        EdgeKind::Opens => 9,
        EdgeKind::Triggers => 10,
    }
}

pub(crate) fn rank(kind: EdgeKind) -> (r: u8)
    ensures
        r as nat == edge_kind_rank(kind),
{
    match kind {
        EdgeKind::Contains => 0,
        EdgeKind::Calls => 1,
        EdgeKind::References => 2,
        EdgeKind::Reads => 3,
        EdgeKind::Writes => 4,
        EdgeKind::Grants => 5,
        EdgeKind::Includes => 6,
        EdgeKind::Extends => 7,
        EdgeKind::DependsOn => 8,
        EdgeKind::Opens => 9,
        EdgeKind::Triggers => 10,
    }
}

proof fn lemma_take_contains_step<A>(s: Seq<A>, i: int, k: A)
    requires
        0 <= i < s.len(),
    ensures
        s.take(i + 1).contains(k) <==> (s.take(i).contains(k) || s[i] == k),
{
    if s.take(i + 1).contains(k) {
        let j = choose|j: int| 0 <= j < i + 1 && #[trigger] s.take(i + 1)[j] == k;
        if j < i {
            assert(s.take(i)[j] == k);
        }
    }
    if s.take(i).contains(k) {
        let j = choose|j: int| 0 <= j < i && #[trigger] s.take(i)[j] == k;
        assert(s.take(i + 1)[j] == k);
    }
    if s[i] == k {
        assert(s.take(i + 1)[i] == k);
    }
}

proof fn lemma_push_contains<A>(s: Seq<A>, x: A, k: A)
    ensures
        s.push(x).contains(k) <==> (s.contains(k) || x == k),
{
    if s.push(x).contains(k) {
        let j = choose|j: int| 0 <= j < s.len() + 1 && #[trigger] s.push(x)[j] == k;
        if j < s.len() {
            assert(s[j] == k);
        }
    }
    if s.contains(k) {
        let j = choose|j: int| 0 <= j < s.len() && #[trigger] s[j] == k;
        assert(s.push(x)[j] == k);
    }
    if x == k {
        assert(s.push(x)[s.len() as int] == k);
    }
}

proof fn lemma_insert_contains<A>(s: Seq<A>, i: int, x: A, k: A)
    requires
        0 <= i <= s.len(),
    ensures
        s.insert(i, x).contains(k) <==> (s.contains(k) || x == k),
{
    let t = s.insert(i, x);
    assert(t.len() == s.len() + 1);
    if t.contains(k) {
        let j = choose|j: int| 0 <= j < t.len() && #[trigger] t[j] == k;
        if j < i {
            assert(s[j] == k);
        } else if j > i {
            assert(s[j - 1] == k);
        }
    }
    if s.contains(k) {
        let j = choose|j: int| 0 <= j < s.len() && #[trigger] s[j] == k;
        if j < i {
            assert(t[j] == k);
        } else {
            assert(t[j + 1] == k);
        }
    }
    if x == k {
        assert(t[i] == k);
    }
}

proof fn lemma_rank_injective(a: EdgeKind, b: EdgeKind)
    ensures
        edge_kind_rank(a) == edge_kind_rank(b) ==> a == b,
{
}

/// Strictly increasing in declaration order: a set of kinds in canonical order.
pub open spec fn kinds_canonical(s: Seq<EdgeKind>) -> bool {
    forall|i: int, j: int|
        0 <= i < j < s.len() ==> edge_kind_rank(#[trigger] s[i]) < edge_kind_rank(#[trigger] s[j])
}

/// Dependency edge kinds: calls, references, reads, writes and depends-on.
pub open spec fn is_dependency_kind(kind: EdgeKind) -> bool {
    kind == EdgeKind::Calls || kind == EdgeKind::References || kind == EdgeKind::Reads || kind
        == EdgeKind::Writes || kind == EdgeKind::DependsOn
}

/// Returns `true` when `kind` participates in dependency queries; ownership
/// `Contains` edges are excluded.
pub fn is_dependency_edge_kind(kind: EdgeKind) -> (r: bool)
    ensures
        r == is_dependency_kind(kind),
{
    match kind {
        EdgeKind::Calls | EdgeKind::References | EdgeKind::Reads | EdgeKind::Writes
        | EdgeKind::DependsOn => true,
        _ => false,
    }
}

/// Public edge kind filter used by query and traversal methods.
#[derive(Debug, Clone, PartialEq, Eq)]
pub enum SemanticGraphEdgeFilter {
    /// Allow every edge kind.
    All,
    /// Allow only the listed edge kinds, kept in declaration order without repeats.
    Only(Vec<EdgeKind>),
}

impl View for SemanticGraphEdgeFilter {
    type V = Option<Seq<EdgeKind>>;

    open spec fn view(&self) -> Option<Seq<EdgeKind>> {
        match self {
            SemanticGraphEdgeFilter::All => None,
            SemanticGraphEdgeFilter::Only(kinds) => Some(kinds@),
        }
    }
}

/// The filter accepts `kind`.
pub open spec fn filter_allows(filter: Option<Seq<EdgeKind>>, kind: EdgeKind) -> bool {
    match filter {
        None => true,
        Some(kinds) => kinds.contains(kind),
    }
}

/// First position whose kind ranks at or above `r`.
fn rank_position(kinds: &Vec<EdgeKind>, r: u8) -> (i: usize)
    ensures
        i <= kinds@.len(),
        forall|j: int| 0 <= j < i ==> edge_kind_rank(#[trigger] kinds@[j]) < r,
        i < kinds@.len() ==> edge_kind_rank(kinds@[i as int]) >= r,
{
    let mut i: usize = 0;
    while i < kinds.len() && rank(kinds[i]) < r
        invariant
            i <= kinds@.len(),
            forall|j: int| 0 <= j < i ==> edge_kind_rank(#[trigger] kinds@[j]) < r,
        decreases kinds@.len() - i,
    {
        i = i + 1;
    }
    i
}

/// Inserts `kind` into a canonical kind list, keeping it canonical.
fn insert_kind(input: Vec<EdgeKind>, kind: EdgeKind) -> (r: Vec<EdgeKind>)
    requires
        kinds_canonical(input@),
    ensures
        kinds_canonical(r@),
        forall|k: EdgeKind| #[trigger] r@.contains(k) <==> (input@.contains(k) || k == kind),
{
    let mut kinds = input;
    let target = rank(kind);
    let i = rank_position(&kinds, target);
    if i < kinds.len() && rank(kinds[i]) == target {
        proof {
            lemma_rank_injective(kinds@[i as int], kind);
            assert(kinds@[i as int] == kind);
            assert(kinds@.contains(kind));
        }
        return kinds;
    }
    let ghost before = kinds@;
    kinds.insert(i, kind);
    proof {
        assert forall|a: int, b: int|
            0 <= a < b < kinds@.len() implies edge_kind_rank(#[trigger] kinds@[a]) < edge_kind_rank(
            #[trigger] kinds@[b],
        ) by {
            if b < i {
                assert(kinds@[a] == before[a] && kinds@[b] == before[b]);
            } else if b == i {
                assert(kinds@[a] == before[a]);
            } else if a < i {
                assert(kinds@[a] == before[a] && kinds@[b] == before[b - 1]);
                assert(edge_kind_rank(before[b - 1]) >= target) by {
                    if i < before.len() {
                        assert(edge_kind_rank(before[i as int]) > target);
                    }
                }
            } else if a == i {
                assert(kinds@[b] == before[b - 1]);
                assert(edge_kind_rank(before[i as int]) > target);
            } else {
                assert(kinds@[a] == before[a - 1] && kinds@[b] == before[b - 1]);
            }
        }
        assert(kinds@ == before.insert(i as int, kind));
        assert forall|k: EdgeKind| #[trigger] kinds@.contains(k) <==> (input@.contains(k) || k == kind) by {
            lemma_insert_contains(before, i as int, kind, k);
        }
    }
    kinds
}

/// The dependency kinds among `kinds`, in their order.
fn dependency_kinds_of(kinds: &Vec<EdgeKind>) -> (r: Vec<EdgeKind>)
    ensures
        forall|k: EdgeKind| #[trigger] r@.contains(k) <==> (kinds@.contains(k) && is_dependency_kind(k)),
{
    let mut result: Vec<EdgeKind> = Vec::new();
    let mut i: usize = 0;
    while i < kinds.len()
        invariant
            i <= kinds@.len(),
            forall|k: EdgeKind|
                #[trigger] result@.contains(k) <==> (kinds@.take(i as int).contains(k)
                    && is_dependency_kind(k)),
        decreases kinds@.len() - i,
    {
        let kind = kinds[i];
        let ghost before = result@;
        if is_dependency_edge_kind(kind) {
            result.push(kind);
        }
        proof {
            assert forall|k: EdgeKind|
                #[trigger] result@.contains(k) <==> (kinds@.take(i + 1).contains(k)
                    && is_dependency_kind(k)) by {
                lemma_take_contains_step(kinds@, i as int, k);
                assert(before.contains(k) <==> (kinds@.take(i as int).contains(k)
                    && is_dependency_kind(k)));
                if is_dependency_kind(kind) {
                    lemma_push_contains(before, kind, k);
                }
            }
        }
        i = i + 1;
    }
    assert(kinds@.take(kinds@.len() as int) == kinds@);
    result
}

impl Default for SemanticGraphEdgeFilter {
    /// The default filter allows every edge kind.
    fn default() -> (r: Self)
        ensures
            r@ is None,
    {
        SemanticGraphEdgeFilter::All
    }
}

impl SemanticGraphEdgeFilter {
    /// Creates a filter that allows every edge kind.
    pub fn all() -> (r: Self)
        ensures
            r@ is None,
    {
        SemanticGraphEdgeFilter::All
    }

    /// Creates a filter that allows exactly one edge kind.
    pub fn only(kind: EdgeKind) -> (r: Self)
        ensures
            r@ == Some(seq![kind]),
    {
        let mut kinds = Vec::new();
        kinds.push(kind);
        SemanticGraphEdgeFilter::Only(kinds)
    }

    /// Creates a filter that allows exactly the supplied edge kinds, held in
    /// declaration order without repeats.
    pub fn any(kinds: &[EdgeKind]) -> (r: Self)
        ensures
            r@ matches Some(s) && kinds_canonical(s) && forall|k: EdgeKind|
                s.contains(k) <==> kinds@.contains(k),
    {
        let mut result: Vec<EdgeKind> = Vec::new();
        let mut i: usize = 0;
        while i < kinds.len()
            invariant
                i <= kinds@.len(),
                kinds_canonical(result@),
                forall|k: EdgeKind| result@.contains(k) <==> kinds@.take(i as int).contains(k),
            decreases kinds@.len() - i,
        {
            result = insert_kind(result, kinds[i]);
            proof {
                assert forall|k: EdgeKind|
                    result@.contains(k) <==> kinds@.take(i + 1).contains(k) by {
                    lemma_take_contains_step(kinds@, i as int, k);
                }
            }
            i = i + 1;
        }
        assert(kinds@.take(kinds@.len() as int) == kinds@);
        SemanticGraphEdgeFilter::Only(result)
    }

    /// Returns whether `kind` is accepted by this filter.
    #[verifier::loop_isolation(false)]
    pub fn allows(&self, kind: EdgeKind) -> (r: bool)
        ensures
            r == filter_allows(self@, kind),
    {
        match self {
            SemanticGraphEdgeFilter::All => true,
            SemanticGraphEdgeFilter::Only(kinds) => {
                let mut i: usize = 0;
                while i < kinds.len()
                    invariant
                        i <= kinds@.len(),
                        forall|j: int| 0 <= j < i ==> kinds@[j] != kind,
                    decreases kinds@.len() - i,
                {
                    if kinds[i] == kind {
                        assert(kinds@[i as int] == kind);
                        return true;
                    }
                    i = i + 1;
                }
                false
            },
        }
    }

    /// Restricts the filter to dependency edge kinds.
    pub fn dependency_only(&self) -> (r: Self)
        ensures
            r@ matches Some(s) && forall|k: EdgeKind|
                s.contains(k) <==> (filter_allows(self@, k) && is_dependency_kind(k)),
    {
        match self {
            SemanticGraphEdgeFilter::All => {
                let mut kinds: Vec<EdgeKind> = Vec::new();
                kinds.push(EdgeKind::Calls);
                kinds.push(EdgeKind::References);
                kinds.push(EdgeKind::Reads);
                kinds.push(EdgeKind::Writes);
                kinds.push(EdgeKind::DependsOn);
                let r = Self::any(kinds.as_slice());
                assert(kinds@ == seq![
                    EdgeKind::Calls,
                    EdgeKind::References,
                    EdgeKind::Reads,
                    EdgeKind::Writes,
                    EdgeKind::DependsOn,
                ]);
                proof {
                    assert forall|k: EdgeKind| kinds@.contains(k) <==> is_dependency_kind(k) by {
                        if is_dependency_kind(k) {
                            if k == EdgeKind::Calls {
                                assert(kinds@[0] == k);
                            } else if k == EdgeKind::References {
                                assert(kinds@[1] == k);
                            } else if k == EdgeKind::Reads {
                                assert(kinds@[2] == k);
                            } else if k == EdgeKind::Writes {
                                assert(kinds@[3] == k);
                            } else {
                                assert(kinds@[4] == k);
                            }
                        }
                    }
                }
                r
            },
            SemanticGraphEdgeFilter::Only(kinds) => SemanticGraphEdgeFilter::Only(
                dependency_kinds_of(kinds),
            ),
        }
    }
}

/// Options for bounded deterministic breadth-first traversal.
#[derive(Debug, Clone, PartialEq, Eq)]
pub struct SemanticGraphTraversalOptions {
    direction: SemanticGraphTraversalDirection,
    max_depth: usize,
    edge_filter: SemanticGraphEdgeFilter,
    include_start: bool,
}

impl View for SemanticGraphTraversalOptions {
    type V = (SemanticGraphTraversalDirection, usize, Option<Seq<EdgeKind>>, bool);

    closed spec fn view(&self) -> (SemanticGraphTraversalDirection, usize, Option<Seq<EdgeKind>>, bool) {
        (self.direction, self.max_depth, self.edge_filter@, self.include_start)
    }
}

impl SemanticGraphTraversalOptions {
    /// Creates traversal options with all edge kinds and excluded start node.
    pub fn new(direction: SemanticGraphTraversalDirection, max_depth: usize) -> (r: Self)
        ensures
            r@ == (direction, max_depth, None::<Seq<EdgeKind>>, false),
    {
        SemanticGraphTraversalOptions {
            direction,
            max_depth,
            edge_filter: SemanticGraphEdgeFilter::All,
            include_start: false,
        }
    }

    /// Returns the traversal direction.
    pub fn direction(&self) -> (r: SemanticGraphTraversalDirection)
        ensures
            r == self@.0,
    {
        self.direction
    }

    /// Returns the strict maximum traversal depth.
    pub fn max_depth(&self) -> (r: usize)
        ensures
            r == self@.1,
    {
        self.max_depth
    }

    /// Returns the edge kind filter used by traversal.
    pub fn edge_filter(&self) -> (r: &SemanticGraphEdgeFilter)
        ensures
            r@ == self@.2,
    {
        &self.edge_filter
    }

    /// Returns whether the start node is included at depth `0`.
    pub fn include_start(&self) -> (r: bool)
        ensures
            r == self@.3,
    {
        self.include_start
    }

    /// Sets the edge kind filter and returns the options.
    pub fn with_edge_filter(self, edge_filter: SemanticGraphEdgeFilter) -> (r: Self)
        ensures
            r@ == (self@.0, self@.1, edge_filter@, self@.3),
    {
        let mut options = self;
        options.edge_filter = edge_filter;
        options
    }

    /// Restricts traversal to one edge kind and returns the options.
    pub fn with_edge_kind(self, edge_kind: EdgeKind) -> (r: Self)
        ensures
            r@ == (self@.0, self@.1, Some(seq![edge_kind]), self@.3),
    {
        self.with_edge_filter(SemanticGraphEdgeFilter::only(edge_kind))
    }

    /// Sets whether to include the start node at depth `0`.
    pub fn with_include_start(self, include_start: bool) -> (r: Self)
        ensures
            r@ == (self@.0, self@.1, self@.2, include_start),
    {
        let mut options = self;
        options.include_start = include_start;
        options
    }
}

/// Owned traversal result record: reached node, depth and discovering edge.
#[derive(Debug, Clone, PartialEq, Eq)]
pub struct SemanticGraphTraversalNode {
    node_id: NodeId,
    depth: usize,
    via_edge: Option<EdgeId>,
}

impl View for SemanticGraphTraversalNode {
    type V = (Seq<char>, usize, Option<Seq<char>>);

    closed spec fn view(&self) -> (Seq<char>, usize, Option<Seq<char>>) {
        (
            self.node_id@,
            self.depth,
            match self.via_edge {
                Some(e) => Some(e@),
                None => None,
            },
        )
    }
}

impl SemanticGraphTraversalNode {
    /// Creates a traversal record.
    pub fn new(node_id: NodeId, depth: usize, via_edge: Option<EdgeId>) -> (r: Self)
        ensures
            r@.0 == node_id@,
            r@.1 == depth,
            r@.2 == match via_edge {
                Some(e) => Some(e@),
                None => None::<Seq<char>>,
            },
    {
        SemanticGraphTraversalNode { node_id, depth, via_edge }
    }

    /// Returns the reached node identifier.
    pub fn node_id(&self) -> (r: &NodeId)
        ensures
            r@ == self@.0,
    {
        &self.node_id
    }

    /// Returns the breadth-first traversal depth.
    pub fn depth(&self) -> (r: usize)
        ensures
            r == self@.1,
    {
        self.depth
    }

    /// Returns the edge that first discovered this node; the start node has none.
    pub fn via_edge(&self) -> (r: Option<&EdgeId>)
        ensures
            match r {
                Some(e) => self@.2 == Some(e@),
                None => self@.2 is None,
            },
    {
        match &self.via_edge {
            Some(e) => Some(e),
            None => None,
        }
    }
}

} // verus!
