//! Graph-level impact analysis: seeds collected from a diff, propagated
//! breadth-first across usages and ownership within the requested depth.

use vstd::prelude::*;

use crate::graph::diff::{
    edge_change_views, node_change_views, DiffView, EdgeChange, EdgeChangeView, NodeChange, NodeChangeView,
    NodeModifiedAspect, SemanticGraphDiff,
};
use crate::graph::edge::{EdgeView, GraphEdge};
use crate::graph::edge_identity::{edge_id, edge_identity_text};
use crate::graph::identity::{EdgeId, NodeId};
use crate::graph::impact::{
    impact_error_view, merge_status, merged_status, AffectedNode, AffectedNodeView, ImpactAnalysisError, ImpactNodeAvailability,
    ImpactNodeStatus, ImpactOptionsView, ImpactPropagationDirection, ImpactReason, ImpactReasonKind,
    ImpactReasonView, ImpactSeed, ImpactSeedKind, ImpactSeedView, ImpactSnapshot, OwnershipImpactMode,
    ProvenanceImpactMode, SemanticImpactAnalyzer, SemanticImpactOptions, SemanticImpactResult, summary_of,
};
use crate::graph::kind::{EdgeKind, MetadataKind, NodeKind};
use crate::graph::node::{GraphNode, NodeView};
use crate::graph::query::{edge_kind_rank, rank, SemanticGraphEdgeFilter, SemanticGraphTraversalDirection};
use crate::graph::semantic_graph::{edge_ref_views, graph_wf, lookup, select_edges, GraphView, SemanticGraph};
use crate::graph::semantic_query::{
    edges_at, node_at, relation_views, relations_of, RelationView, SemanticGraphQuery,
};
use crate::ranked::{
    key_view, push_number, push_part, rank_sort, rank_sort_unique, rank_sorted, rank_sorted_unique,
    rank_values, ranked_values, ranked_views, Part, Ranked,
};
use crate::text::{all_ws, text_equal};

verus! {

/// Position of a metadata kind in declaration order.
pub open spec fn metadata_rank(x: MetadataKind) -> usize {
    match x {
        MetadataKind::Configuration => 0,
        MetadataKind::Subsystem => 1,
        MetadataKind::Catalog => 2,
        MetadataKind::Document => 3,
        MetadataKind::Enumeration => 4,
        MetadataKind::CommonModule => 5,
        MetadataKind::Report => 6,
        MetadataKind::DataProcessor => 7,
        MetadataKind::InformationRegister => 8,
        MetadataKind::AccumulationRegister => 9,
        MetadataKind::AccountingRegister => 10,
        MetadataKind::CalculationRegister => 11,
        MetadataKind::BusinessProcess => 12,
        MetadataKind::Task => 13,
        MetadataKind::Role => 14,
        MetadataKind::CommonForm => 15,
        MetadataKind::Form => 16,
        MetadataKind::Command => 17,
        MetadataKind::Template => 18,
        MetadataKind::HttpService => 19,
        MetadataKind::WebService => 20,
        MetadataKind::XdtoPackage => 21,
        MetadataKind::EventSubscription => 22,
        MetadataKind::Unknown => 23,
    }
}

fn metadata_rank_of(x: MetadataKind) -> (r: usize)
    ensures
        r == metadata_rank(x),
{
    match x {
        MetadataKind::Configuration => 0,
        MetadataKind::Subsystem => 1,
        MetadataKind::Catalog => 2,
        MetadataKind::Document => 3,
        MetadataKind::Enumeration => 4,
        MetadataKind::CommonModule => 5,
        MetadataKind::Report => 6,
        MetadataKind::DataProcessor => 7,
        MetadataKind::InformationRegister => 8,
        MetadataKind::AccumulationRegister => 9,
        MetadataKind::AccountingRegister => 10,
        MetadataKind::CalculationRegister => 11,
        MetadataKind::BusinessProcess => 12,
        MetadataKind::Task => 13,
        MetadataKind::Role => 14,
        MetadataKind::CommonForm => 15,
        MetadataKind::Form => 16,
        MetadataKind::Command => 17,
        MetadataKind::Template => 18,
        MetadataKind::HttpService => 19,
        MetadataKind::WebService => 20,
        MetadataKind::XdtoPackage => 21,
        MetadataKind::EventSubscription => 22,
        MetadataKind::Unknown => 23,
    }
}

/// Position of a node kind in declaration order, with the position of its
/// metadata kind for metadata nodes.
pub open spec fn node_kind_code(k: NodeKind) -> (usize, usize) {
    match k {
        NodeKind::Metadata(m) => (0, metadata_rank(m)),
        NodeKind::Module => (1, 0),
        NodeKind::Procedure => (2, 0),
        NodeKind::Function => (3, 0),
        NodeKind::Query => (4, 0),
        NodeKind::DataCompositionSchema => (5, 0),
        NodeKind::DataSet => (6, 0),
        NodeKind::DataCompositionField => (7, 0),
        NodeKind::Form => (8, 0),
        NodeKind::Command => (9, 0),
        NodeKind::Attribute => (10, 0),
        NodeKind::StandardAttribute => (11, 0),
        NodeKind::TabularSection => (12, 0),
        NodeKind::Dimension => (13, 0),
        NodeKind::Resource => (14, 0),
        NodeKind::Measure => (15, 0),
        NodeKind::Role => (16, 0),
        NodeKind::AccessRight => (17, 0),
        NodeKind::Subsystem => (18, 0),
        NodeKind::Unknown => (19, 0),
    }
}

fn node_kind_code_of(k: NodeKind) -> (r: (usize, usize))
    ensures
        r == node_kind_code(k),
{
    match k {
        NodeKind::Metadata(m) => (0, metadata_rank_of(m)),
        NodeKind::Module => (1, 0),
        NodeKind::Procedure => (2, 0),
        NodeKind::Function => (3, 0),
        NodeKind::Query => (4, 0),
        NodeKind::DataCompositionSchema => (5, 0),
        NodeKind::DataSet => (6, 0),
        NodeKind::DataCompositionField => (7, 0),
        NodeKind::Form => (8, 0),
        NodeKind::Command => (9, 0),
        NodeKind::Attribute => (10, 0),
        NodeKind::StandardAttribute => (11, 0),
        NodeKind::TabularSection => (12, 0),
        NodeKind::Dimension => (13, 0),
        NodeKind::Resource => (14, 0),
        NodeKind::Measure => (15, 0),
        NodeKind::Role => (16, 0),
        NodeKind::AccessRight => (17, 0),
        NodeKind::Subsystem => (18, 0),
        NodeKind::Unknown => (19, 0),
    }
}

/// Position of a snapshot in declaration order.
pub open spec fn snapshot_rank(x: ImpactSnapshot) -> usize {
    match x {
        ImpactSnapshot::Previous => 0,
        ImpactSnapshot::Current => 1,
    }
}

fn snapshot_rank_of(x: ImpactSnapshot) -> (r: usize)
    ensures
        r == snapshot_rank(x),
{
    match x {
        ImpactSnapshot::Previous => 0,
        ImpactSnapshot::Current => 1,
    }
}

/// Position of a node status in declaration order.
pub open spec fn status_rank(x: ImpactNodeStatus) -> usize {
    match x {
        ImpactNodeStatus::DirectlyChanged => 0,
        ImpactNodeStatus::TransitivelyAffected => 1,
        ImpactNodeStatus::Removed => 2,
    }
}

fn status_rank_of(x: ImpactNodeStatus) -> (r: usize)
    ensures
        r == status_rank(x),
{
    match x {
        ImpactNodeStatus::DirectlyChanged => 0,
        ImpactNodeStatus::TransitivelyAffected => 1,
        ImpactNodeStatus::Removed => 2,
    }
}

/// Position of a seed kind in declaration order.
pub open spec fn seed_kind_rank(x: ImpactSeedKind) -> usize {
    match x {
        ImpactSeedKind::NodeAdded => 0,
        ImpactSeedKind::NodeRemoved => 1,
        ImpactSeedKind::NodeModified => 2,
        ImpactSeedKind::EdgeAdded => 3,
        ImpactSeedKind::EdgeRemoved => 4,
        ImpactSeedKind::EdgeModified => 5,
    }
}

fn seed_kind_rank_of(x: ImpactSeedKind) -> (r: usize)
    ensures
        r == seed_kind_rank(x),
{
    match x {
        ImpactSeedKind::NodeAdded => 0,
        ImpactSeedKind::NodeRemoved => 1,
        ImpactSeedKind::NodeModified => 2,
        ImpactSeedKind::EdgeAdded => 3,
        ImpactSeedKind::EdgeRemoved => 4,
        ImpactSeedKind::EdgeModified => 5,
    }
}

/// Position of a reason kind in declaration order.
pub open spec fn reason_kind_rank(x: ImpactReasonKind) -> usize {
    match x {
        ImpactReasonKind::NodeAdded => 0,
        ImpactReasonKind::NodeRemoved => 1,
        ImpactReasonKind::NodeModified => 2,
        ImpactReasonKind::EdgeAdded => 3,
        ImpactReasonKind::EdgeRemoved => 4,
        ImpactReasonKind::EdgeModified => 5,
        ImpactReasonKind::DependencyPropagation => 6,
        ImpactReasonKind::OwnershipPropagation => 7,
    }
}

fn reason_kind_rank_of(x: ImpactReasonKind) -> (r: usize)
    ensures
        r == reason_kind_rank(x),
{
    match x {
        ImpactReasonKind::NodeAdded => 0,
        ImpactReasonKind::NodeRemoved => 1,
        ImpactReasonKind::NodeModified => 2,
        ImpactReasonKind::EdgeAdded => 3,
        ImpactReasonKind::EdgeRemoved => 4,
        ImpactReasonKind::EdgeModified => 5,
        ImpactReasonKind::DependencyPropagation => 6,
        ImpactReasonKind::OwnershipPropagation => 7,
    }
}

/// Position of a propagation direction in declaration order.
pub open spec fn propagation_rank(x: ImpactPropagationDirection) -> usize {
    match x {
        ImpactPropagationDirection::DependencyToUsage => 0,
        ImpactPropagationDirection::ChildToOwner => 1,
        ImpactPropagationDirection::OwnerToChild => 2,
    }
}

fn propagation_rank_of(x: ImpactPropagationDirection) -> (r: usize)
    ensures
        r == propagation_rank(x),
{
    match x {
        ImpactPropagationDirection::DependencyToUsage => 0,
        ImpactPropagationDirection::ChildToOwner => 1,
        ImpactPropagationDirection::OwnerToChild => 2,
    }
}

/// A key of one number part.
pub open spec fn num(n: usize) -> Seq<Part> {
    seq![(n, Seq::<char>::empty())]
}

/// A key of one text part.
pub open spec fn text_part(t: Seq<char>) -> Seq<Part> {
    seq![(0usize, t)]
}

/// Key of a node kind: declaration order, metadata kinds by their own order.
pub open spec fn node_kind_key(k: NodeKind) -> Seq<Part> {
    let (v, m) = node_kind_code(k);
    if v == 0 {
        num(0) + num(m)
    } else {
        num(v)
    }
}

/// Key of an optional node kind: absent first.
pub open spec fn opt_node_kind_key(k: Option<NodeKind>) -> Seq<Part> {
    match k {
        None => num(0),
        Some(x) => num(1) + node_kind_key(x),
    }
}

/// Key of an optional text: absent first.
pub open spec fn opt_text_key(t: Option<Seq<char>>) -> Seq<Part> {
    match t {
        None => num(0),
        Some(x) => num(1) + text_part(x),
    }
}

/// Key of an optional edge kind: absent first.
pub open spec fn opt_edge_kind_key(k: Option<EdgeKind>) -> Seq<Part> {
    match k {
        None => num(0),
        Some(x) => num(1) + num(edge_kind_rank(x) as usize),
    }
}

/// Key of an optional propagation direction: absent first.
pub open spec fn opt_propagation_key(p: Option<ImpactPropagationDirection>) -> Seq<Part> {
    match p {
        None => num(0),
        Some(x) => num(1) + num(propagation_rank(x)),
    }
}

/// Key of a seed: kind, node identifier, edge identifier.
pub open spec fn seed_key(s: ImpactSeedView) -> Seq<Part> {
    num(seed_kind_rank(s.0)) + opt_text_key(s.1) + opt_text_key(s.2)
}

/// Key of a reason: kind, seed, source node, edge identifier, edge kind,
/// depth, snapshot and propagation direction.
pub open spec fn reason_key(r: ImpactReasonView) -> Seq<Part> {
    num(reason_kind_rank(r.0)) + seed_key(r.1) + opt_text_key(r.2) + opt_text_key(r.3) + opt_edge_kind_key(r.4)
        + num(r.5) + num(snapshot_rank(r.6)) + opt_propagation_key(r.7)
}

pub(crate) fn push_node_kind_key(key: &mut Vec<(usize, String)>, k: NodeKind)
    ensures
        key_view(final(key)@) == key_view(old(key)@) + node_kind_key(k),
{
    let ghost k0 = key_view(key@);
    let (v, m) = node_kind_code_of(k);
    push_number(key, v);
    if v == 0 {
        push_number(key, m);
        assert(key_view(key@) =~= k0 + node_kind_key(k));
    } else {
        assert(key_view(key@) =~= k0 + node_kind_key(k));
    }
}

pub(crate) fn push_opt_node_kind_key(key: &mut Vec<(usize, String)>, k: Option<NodeKind>)
    ensures
        key_view(final(key)@) == key_view(old(key)@) + opt_node_kind_key(k),
{
    let ghost k0 = key_view(key@);
    match k {
        None => {
            push_number(key, 0);
            assert(key_view(key@) =~= k0 + opt_node_kind_key(k));
        },
        Some(x) => {
            push_number(key, 1);
            push_node_kind_key(key, x);
            assert(key_view(key@) =~= k0 + opt_node_kind_key(k));
        },
    }
}

pub(crate) fn push_opt_text_key(key: &mut Vec<(usize, String)>, t: Option<&str>)
    ensures
        key_view(final(key)@) == key_view(old(key)@) + opt_text_key(
            match t {
                Some(x) => Some(x@),
                None => None,
            },
        ),
{
    let ghost k0 = key_view(key@);
    match t {
        None => {
            push_number(key, 0);
            assert(key_view(key@) =~= k0 + num(0));
        },
        Some(x) => {
            push_number(key, 1);
            push_part(key, 0, x);
            assert(key_view(key@) =~= k0 + (num(1) + text_part(x@)));
        },
    }
}

fn push_opt_edge_kind_key(key: &mut Vec<(usize, String)>, k: Option<EdgeKind>)
    ensures
        key_view(final(key)@) == key_view(old(key)@) + opt_edge_kind_key(k),
{
    let ghost k0 = key_view(key@);
    match k {
        None => {
            push_number(key, 0);
            assert(key_view(key@) =~= k0 + opt_edge_kind_key(k));
        },
        Some(x) => {
            push_number(key, 1);
            let r = rank(x);
            push_number(key, r as usize);
            assert(key_view(key@) =~= k0 + opt_edge_kind_key(k));
        },
    }
}

fn push_opt_propagation_key(key: &mut Vec<(usize, String)>, p: Option<ImpactPropagationDirection>)
    ensures
        key_view(final(key)@) == key_view(old(key)@) + opt_propagation_key(p),
{
    let ghost k0 = key_view(key@);
    match p {
        None => {
            push_number(key, 0);
            assert(key_view(key@) =~= k0 + opt_propagation_key(p));
        },
        Some(x) => {
            push_number(key, 1);
            push_number(key, propagation_rank_of(x));
            assert(key_view(key@) =~= k0 + opt_propagation_key(p));
        },
    }
}

fn push_seed_key(key: &mut Vec<(usize, String)>, s: &ImpactSeed)
    ensures
        key_view(final(key)@) == key_view(old(key)@) + seed_key(s@),
{
    let ghost k0 = key_view(key@);
    push_number(key, seed_kind_rank_of(s.kind()));
    let n = match s.node_id() {
        Some(x) => Some(x.as_str()),
        None => None,
    };
    push_opt_text_key(key, n);
    let e = match s.edge_id() {
        Some(x) => Some(x.as_str()),
        None => None,
    };
    push_opt_text_key(key, e);
    assert(key_view(key@) =~= k0 + seed_key(s@));
}

/// Builds the key of a reason.
#[verifier::spinoff_prover]
fn reason_key_of(r: &ImpactReason) -> (key: Vec<(usize, String)>)
    ensures
        key_view(key@) == reason_key(r@),
{
    let ghost v = r@;
    let mut key: Vec<(usize, String)> = Vec::new();
    push_number(&mut key, reason_kind_rank_of(r.kind()));
    push_seed_key(&mut key, r.seed());
    let ghost k1 = key_view(key@);
    assert(k1 =~= num(reason_kind_rank(v.0)) + seed_key(v.1));
    let source = match r.source_node() {
        Some(x) => Some(x.as_str()),
        None => None,
    };
    push_opt_text_key(&mut key, source);
    let edge = match r.edge_id() {
        Some(x) => Some(x.as_str()),
        None => None,
    };
    push_opt_text_key(&mut key, edge);
    let ghost k2 = key_view(key@);
    assert(k2 == k1 + opt_text_key(v.2) + opt_text_key(v.3));
    push_opt_edge_kind_key(&mut key, r.edge_kind());
    push_number(&mut key, r.depth());
    push_number(&mut key, snapshot_rank_of(r.snapshot()));
    push_opt_propagation_key(&mut key, r.propagation());
    assert(key_view(key@) == k2 + opt_edge_kind_key(v.4) + num(v.5) + num(snapshot_rank(v.6)) + opt_propagation_key(
        v.7,
    ));
    assert(key_view(key@) =~= reason_key(v));
    key
}

/// Seed work: node, its kind, snapshot, status, reason and whether it
/// propagates.
pub type SeedWorkView = (Seq<char>, Option<NodeKind>, ImpactSnapshot, ImpactNodeStatus, ImpactReasonView, bool);

/// Key of seed work: node, kind, snapshot, status, reason, propagation flag.
pub open spec fn seed_work_key(w: SeedWorkView) -> Seq<Part> {
    text_part(w.0) + opt_node_kind_key(w.1) + num(snapshot_rank(w.2)) + num(status_rank(w.3)) + reason_key(w.4)
        + num(
        if w.5 {
            1usize
        } else {
            0usize
        },
    )
}

/// A propagation step: reached node, its kind, edge identifier, edge kind,
/// snapshot, reason kind and direction.
pub type StepView = (
    Seq<char>,
    Option<NodeKind>,
    Seq<char>,
    EdgeKind,
    ImpactSnapshot,
    ImpactReasonKind,
    ImpactPropagationDirection,
);

/// Key of a step, field by field.
pub open spec fn step_key(s: StepView) -> Seq<Part> {
    text_part(s.0) + opt_node_kind_key(s.1) + text_part(s.2) + num(edge_kind_rank(s.3) as usize) + num(
        snapshot_rank(s.4),
    ) + num(reason_kind_rank(s.5)) + num(propagation_rank(s.6))
}

/// An analysis error: whether an edge is missing (else a node), its
/// identifier, and the snapshot where it must exist.
pub type ImpactErrorView = (bool, Seq<char>, ImpactSnapshot);

/// A reason with no source node, edge or propagation.
pub open spec fn base_reason(
    kind: ImpactReasonKind,
    seed: ImpactSeedView,
    depth: usize,
    snapshot: ImpactSnapshot,
) -> ImpactReasonView {
    (kind, seed, None, None, None, depth, snapshot, None)
}

/// Seed work for a changed node, which must exist in `g`.
pub open spec fn node_seed_work(
    g: GraphView,
    c: NodeChangeView,
    snapshot: ImpactSnapshot,
    seed_kind: ImpactSeedKind,
    reason_kind: ImpactReasonKind,
    propagates: bool,
) -> Result<SeedWorkView, ImpactErrorView> {
    match node_at(g, c.0) {
        None => Err((false, c.0, snapshot)),
        Some(n) => Ok(
            (
                c.0,
                Some(n.kind),
                snapshot,
                if seed_kind == ImpactSeedKind::NodeRemoved {
                    ImpactNodeStatus::Removed
                } else {
                    ImpactNodeStatus::DirectlyChanged
                },
                base_reason(reason_kind, (seed_kind, Some(c.0), None), 0, snapshot),
                propagates,
            ),
        ),
    }
}

/// Seed work for a list of changed nodes, the first error winning.
pub open spec fn node_seed_list(
    g: GraphView,
    cs: Seq<NodeChangeView>,
    snapshot: ImpactSnapshot,
    seed_kind: ImpactSeedKind,
    reason_kind: ImpactReasonKind,
    propagates: bool,
) -> Result<Seq<SeedWorkView>, ImpactErrorView>
    decreases cs.len(),
{
    if cs.len() == 0 {
        Ok(Seq::empty())
    } else {
        match node_seed_list(g, cs.drop_last(), snapshot, seed_kind, reason_kind, propagates) {
            Err(e) => Err(e),
            Ok(s) => match node_seed_work(g, cs.last(), snapshot, seed_kind, reason_kind, propagates) {
                Ok(w) => Ok(s.push(w)),
                Err(e) => Err(e),
            },
        }
    }
}

/// Whether a node change modified only provenance.
pub open spec fn provenance_only(c: NodeChangeView) -> bool {
    c.5 == seq![NodeModifiedAspect::Provenance]
}

/// Seed work for modified nodes: each in the previous and then the current
/// snapshot, unless provenance is excluded and only provenance changed.
pub open spec fn modified_node_seeds(
    g0: GraphView,
    g1: GraphView,
    cs: Seq<NodeChangeView>,
    mode: ProvenanceImpactMode,
) -> Result<Seq<SeedWorkView>, ImpactErrorView>
    decreases cs.len(),
{
    if cs.len() == 0 {
        Ok(Seq::empty())
    } else {
        match modified_node_seeds(g0, g1, cs.drop_last(), mode) {
            Err(e) => Err(e),
            Ok(s) => {
                let c = cs.last();
                if mode == ProvenanceImpactMode::Exclude && provenance_only(c) {
                    Ok(s)
                } else {
                    let propagates = !provenance_only(c) || mode == ProvenanceImpactMode::Propagate;
                    match node_seed_work(
                        g0,
                        c,
                        ImpactSnapshot::Previous,
                        ImpactSeedKind::NodeModified,
                        ImpactReasonKind::NodeModified,
                        propagates,
                    ) {
                        Err(e) => Err(e),
                        Ok(w0) => match node_seed_work(
                            g1,
                            c,
                            ImpactSnapshot::Current,
                            ImpactSeedKind::NodeModified,
                            ImpactReasonKind::NodeModified,
                            propagates,
                        ) {
                            Err(e) => Err(e),
                            Ok(w1) => Ok(s.push(w0).push(w1)),
                        },
                    }
                }
            },
        }
    }
}

/// Seed work for both endpoints of a changed edge, which must exist in `g`
/// together with its endpoints.
pub open spec fn edge_seed_works(
    g: GraphView,
    c: EdgeChangeView,
    snapshot: ImpactSnapshot,
    seed_kind: ImpactSeedKind,
    reason_kind: ImpactReasonKind,
    propagates: bool,
) -> Result<Seq<SeedWorkView>, ImpactErrorView> {
    let seed: ImpactSeedView = (seed_kind, None, Some(c.0));
    if crate::graph::semantic_query::edge_with_id(g.edges, c.0, 0) is None {
        Err((true, c.0, snapshot))
    } else {
        match node_at(g, c.2) {
            None => Err((false, c.2, snapshot)),
            Some(ns) => match node_at(g, c.3) {
                None => Err((false, c.3, snapshot)),
                Some(nt) => Ok(
                    seq![
                        (
                            c.2,
                            Some(ns.kind),
                            snapshot,
                            ImpactNodeStatus::DirectlyChanged,
                            (reason_kind, seed, Some(c.2), Some(c.0), Some(c.4), 0usize, snapshot, None),
                            propagates,
                        ),
                        (
                            c.3,
                            Some(nt.kind),
                            snapshot,
                            ImpactNodeStatus::DirectlyChanged,
                            (reason_kind, seed, Some(c.3), Some(c.0), Some(c.4), 0usize, snapshot, None),
                            propagates,
                        ),
                    ],
                ),
            },
        }
    }
}

/// Seed work for a list of changed edges, the first error winning.
pub open spec fn edge_seed_list(
    g: GraphView,
    cs: Seq<EdgeChangeView>,
    snapshot: ImpactSnapshot,
    seed_kind: ImpactSeedKind,
    reason_kind: ImpactReasonKind,
    propagates: bool,
) -> Result<Seq<SeedWorkView>, ImpactErrorView>
    decreases cs.len(),
{
    if cs.len() == 0 {
        Ok(Seq::empty())
    } else {
        match edge_seed_list(g, cs.drop_last(), snapshot, seed_kind, reason_kind, propagates) {
            Err(e) => Err(e),
            Ok(s) => match edge_seed_works(g, cs.last(), snapshot, seed_kind, reason_kind, propagates) {
                Ok(w) => Ok(s + w),
                Err(e) => Err(e),
            },
        }
    }
}

/// Seed work for modified edges in the previous and then the current
/// snapshot; none when provenance is excluded.
pub open spec fn modified_edge_seeds(
    g0: GraphView,
    g1: GraphView,
    cs: Seq<EdgeChangeView>,
    mode: ProvenanceImpactMode,
) -> Result<Seq<SeedWorkView>, ImpactErrorView>
    decreases cs.len(),
{
    if cs.len() == 0 || mode == ProvenanceImpactMode::Exclude {
        Ok(Seq::empty())
    } else {
        match modified_edge_seeds(g0, g1, cs.drop_last(), mode) {
            Err(e) => Err(e),
            Ok(s) => {
                let propagates = mode == ProvenanceImpactMode::Propagate;
                match edge_seed_works(
                    g0,
                    cs.last(),
                    ImpactSnapshot::Previous,
                    ImpactSeedKind::EdgeModified,
                    ImpactReasonKind::EdgeModified,
                    propagates,
                ) {
                    Err(e) => Err(e),
                    Ok(w0) => match edge_seed_works(
                        g1,
                        cs.last(),
                        ImpactSnapshot::Current,
                        ImpactSeedKind::EdgeModified,
                        ImpactReasonKind::EdgeModified,
                        propagates,
                    ) {
                        Err(e) => Err(e),
                        Ok(w1) => Ok(s + w0 + w1),
                    },
                }
            },
        }
    }
}

/// Seed work ordered by key without repeats.
pub open spec fn ordered_seeds(all: Seq<SeedWorkView>) -> Seq<SeedWorkView> {
    rank_values(rank_sorted_unique(all.map_values(|w: SeedWorkView| (seed_work_key(w), w))))
}

/// The seeds of a diff: added, removed and modified nodes, then added,
/// removed and modified edges, ordered without repeats; or the first seed
/// missing from the snapshot where it must exist.
pub open spec fn collect_seeds(g0: GraphView, g1: GraphView, d: DiffView, o: ImpactOptionsView) -> Result<
    Seq<SeedWorkView>,
    ImpactErrorView,
> {
    match node_seed_list(g1, d.0, ImpactSnapshot::Current, ImpactSeedKind::NodeAdded, ImpactReasonKind::NodeAdded, true) {
        Err(e) => Err(e),
        Ok(a) => match node_seed_list(
            g0,
            d.1,
            ImpactSnapshot::Previous,
            ImpactSeedKind::NodeRemoved,
            ImpactReasonKind::NodeRemoved,
            true,
        ) {
            Err(e) => Err(e),
            Ok(b) => match modified_node_seeds(g0, g1, d.2, o.3) {
                Err(e) => Err(e),
                Ok(c) => match edge_seed_list(
                    g1,
                    d.3,
                    ImpactSnapshot::Current,
                    ImpactSeedKind::EdgeAdded,
                    ImpactReasonKind::EdgeAdded,
                    true,
                ) {
                    Err(e) => Err(e),
                    Ok(e1) => match edge_seed_list(
                        g0,
                        d.4,
                        ImpactSnapshot::Previous,
                        ImpactSeedKind::EdgeRemoved,
                        ImpactReasonKind::EdgeRemoved,
                        true,
                    ) {
                        Err(e) => Err(e),
                        Ok(e2) => match modified_edge_seeds(g0, g1, d.5, o.3) {
                            Err(e) => Err(e),
                            Ok(e3) => Ok(ordered_seeds(a + b + c + e1 + e2 + e3)),
                        },
                    },
                },
            },
        },
    }
}

/// Visited nodes of one snapshot with the least depth they were queued at.
pub type VisitView = Seq<(Seq<char>, usize)>;

/// A queued node: identifier, snapshot, depth and the seed it came from.
pub type ItemView = (Seq<char>, ImpactSnapshot, usize, ImpactSeedView);

/// Analysis state: affected nodes, queue, and the visited nodes of the
/// previous and of the current snapshot.
pub type AnalysisView = (Seq<AffectedNodeView>, Seq<ItemView>, VisitView, VisitView);

/// In which snapshots a node exists.
pub open spec fn availability_of(g0: GraphView, g1: GraphView, id: Seq<char>) -> ImpactNodeAvailability {
    if node_at(g1, id) is Some {
        if node_at(g0, id) is Some {
            ImpactNodeAvailability::Both
        } else {
            ImpactNodeAvailability::CurrentOnly
        }
    } else {
        ImpactNodeAvailability::PreviousOnly
    }
}

/// The node kind in the current snapshot, else in the previous one.
pub open spec fn fallback_kind(g0: GraphView, g1: GraphView, id: Seq<char>) -> Option<NodeKind> {
    match node_at(g1, id) {
        Some(n) => Some(n.kind),
        None => match node_at(g0, id) {
            Some(n) => Some(n.kind),
            None => None,
        },
    }
}

/// Position of the affected node `id` from `i` on, or the length.
pub open spec fn affected_pos(a: Seq<AffectedNodeView>, id: Seq<char>, i: int) -> int
    decreases a.len() - i,
{
    if 0 <= i < a.len() && a[i].0 != id {
        affected_pos(a, id, i + 1)
    } else {
        i
    }
}

/// First position of `rs` from `i` on whose key does not sort before `k`.
pub open spec fn reason_pos(rs: Seq<ImpactReasonView>, k: Seq<Part>, i: int) -> int
    decreases rs.len() - i,
{
    if 0 <= i < rs.len() && crate::ranked::parts_lt(reason_key(rs[i]), k) {
        reason_pos(rs, k, i + 1)
    } else {
        i
    }
}

/// `r` inserted into the ordered reasons `rs` unless present.
pub open spec fn reason_insert(rs: Seq<ImpactReasonView>, r: ImpactReasonView) -> Seq<ImpactReasonView> {
    let p = reason_pos(rs, reason_key(r), 0);
    if 0 <= p < rs.len() && reason_key(rs[p]) == reason_key(r) {
        rs
    } else {
        rs.insert(p, r)
    }
}

/// The affected nodes once `id` is reached with a status, depth and reason:
/// a known node merges the status, keeps the least depth and gains the
/// reason; a new node takes the given kind (or its kind in a snapshot) and
/// its availability.
pub open spec fn add_affected(
    g0: GraphView,
    g1: GraphView,
    a: Seq<AffectedNodeView>,
    id: Seq<char>,
    kind: Option<NodeKind>,
    status: ImpactNodeStatus,
    depth: usize,
    reason: ImpactReasonView,
) -> Seq<AffectedNodeView> {
    let p = affected_pos(a, id, 0);
    if 0 <= p < a.len() {
        let x = a[p];
        a.update(
            p,
            (
                x.0,
                x.1,
                merged_status(x.2, status),
                x.3,
                if depth < x.4 {
                    depth
                } else {
                    x.4
                },
                reason_insert(x.5, reason),
            ),
        )
    } else {
        a.push(
            (
                id,
                if kind is Some {
                    kind
                } else {
                    fallback_kind(g0, g1, id)
                },
                status,
                availability_of(g0, g1, id),
                depth,
                seq![reason],
            ),
        )
    }
}

/// Position of the visited node `id` from `i` on, or the length.
pub open spec fn visit_pos(v: VisitView, id: Seq<char>, i: int) -> int
    decreases v.len() - i,
{
    if 0 <= i < v.len() && v[i].0 != id {
        visit_pos(v, id, i + 1)
    } else {
        i
    }
}

/// The depth recorded for `id`, if visited.
pub open spec fn visit_get(v: VisitView, id: Seq<char>) -> Option<usize> {
    let p = visit_pos(v, id, 0);
    if 0 <= p < v.len() {
        Some(v[p].1)
    } else {
        None
    }
}

/// `v` recording depth `d` for `id`.
pub open spec fn visit_set(v: VisitView, id: Seq<char>, d: usize) -> VisitView {
    let p = visit_pos(v, id, 0);
    if 0 <= p < v.len() {
        v.update(p, (id, d))
    } else {
        v.push((id, d))
    }
}

/// The state once a seed is added: the node is affected at depth `0`, and a
/// propagating seed is marked visited (keeping an earlier depth) and queued.
pub open spec fn add_seed(g0: GraphView, g1: GraphView, st: AnalysisView, w: SeedWorkView) -> AnalysisView {
    let a = add_affected(g0, g1, st.0, w.0, w.1, w.3, 0, w.4);
    if w.5 {
        let q = st.1.push((w.0, w.2, 0usize, w.4.1));
        if w.2 == ImpactSnapshot::Previous {
            let v = if visit_get(st.2, w.0) is Some {
                st.2
            } else {
                visit_set(st.2, w.0, 0)
            };
            (a, q, v, st.3)
        } else {
            let v = if visit_get(st.3, w.0) is Some {
                st.3
            } else {
                visit_set(st.3, w.0, 0)
            };
            (a, q, st.2, v)
        }
    } else {
        (a, st.1, st.2, st.3)
    }
}

/// The state once the seeds are added in order.
pub open spec fn add_seeds(g0: GraphView, g1: GraphView, st: AnalysisView, ws: Seq<SeedWorkView>) -> AnalysisView
    decreases ws.len(),
{
    if ws.len() == 0 {
        st
    } else {
        add_seed(g0, g1, add_seeds(g0, g1, st, ws.drop_last()), ws.last())
    }
}

/// Dependency steps from a queued node: its direct usages across the
/// dependency edges the filter accepts.
pub open spec fn dependency_steps(g: GraphView, item: ItemView, filter: Option<Seq<EdgeKind>>) -> Seq<StepView> {
    relations_of(g, item.0, SemanticGraphTraversalDirection::Upstream, filter, true).map_values(
        |r: RelationView|
            (
                r.0.id,
                Some(r.0.kind),
                r.2,
                r.1.kind,
                item.1,
                ImpactReasonKind::DependencyPropagation,
                ImpactPropagationDirection::DependencyToUsage,
            ),
    )
}

/// Ownership steps across the containment edges `e` to the owner
/// (`to_owner`) or to the child, skipping ends without a node.
pub open spec fn containment_steps(nodes: Seq<NodeView>, e: Seq<EdgeView>, to_owner: bool, snapshot: ImpactSnapshot) -> Seq<
    StepView,
>
    decreases e.len(),
{
    if e.len() == 0 {
        Seq::empty()
    } else {
        let rest = containment_steps(nodes, e.drop_last(), to_owner, snapshot);
        let x = e.last();
        let far = if to_owner {
            x.source
        } else {
            x.target
        };
        match lookup(nodes, far) {
            Some(n) => rest.push(
                (
                    n.id,
                    Some(n.kind),
                    edge_identity_text(x.source, x.target, x.kind),
                    x.kind,
                    snapshot,
                    ImpactReasonKind::OwnershipPropagation,
                    if to_owner {
                        ImpactPropagationDirection::ChildToOwner
                    } else {
                        ImpactPropagationDirection::OwnerToChild
                    },
                ),
            ),
            None => rest,
        }
    }
}

/// Ownership steps from a queued node in the directions the mode enables:
/// child to owner first, then owner to child.
pub open spec fn ownership_steps(g: GraphView, item: ItemView, mode: OwnershipImpactMode) -> Seq<StepView> {
    let up = if mode == OwnershipImpactMode::ChildToOwner || mode == OwnershipImpactMode::Bidirectional {
        containment_steps(
            g.nodes,
            select_edges(edges_at(g, item.0, false), None, None, Some(EdgeKind::Contains)),
            true,
            item.1,
        )
    } else {
        Seq::empty()
    };
    let down = if mode == OwnershipImpactMode::OwnerToChild || mode == OwnershipImpactMode::Bidirectional {
        containment_steps(
            g.nodes,
            select_edges(edges_at(g, item.0, true), None, None, Some(EdgeKind::Contains)),
            false,
            item.1,
        )
    } else {
        Seq::empty()
    };
    up + down
}

/// All steps from a queued node, in key order.
pub open spec fn item_steps(g: GraphView, item: ItemView, o: ImpactOptionsView) -> Seq<StepView> {
    rank_values(
        rank_sorted(
            (dependency_steps(g, item, o.1) + ownership_steps(g, item, o.2)).map_values(
                |s: StepView| (step_key(s), s),
            ),
        ),
    )
}

/// The reason carried by a step.
pub open spec fn step_reason(
    s: StepView,
    seed: ImpactSeedView,
    source_node: Seq<char>,
    depth: usize,
) -> ImpactReasonView {
    (s.5, seed, Some(source_node), Some(s.2), Some(s.3), depth, s.4, Some(s.6))
}

/// The state once the steps from `item` are taken in order: each reached
/// node is affected at the next depth, and is queued when this depth beats
/// the one it was visited at in the item's snapshot.
pub open spec fn take_steps(
    g0: GraphView,
    g1: GraphView,
    st: AnalysisView,
    item: ItemView,
    steps: Seq<StepView>,
) -> AnalysisView
    decreases steps.len(),
{
    if steps.len() == 0 {
        st
    } else {
        let s1 = take_steps(g0, g1, st, item, steps.drop_last());
        let s = steps.last();
        let next = (item.2 + 1) as usize;
        let a = add_affected(
            g0,
            g1,
            s1.0,
            s.0,
            s.1,
            ImpactNodeStatus::TransitivelyAffected,
            next,
            step_reason(s, item.3, item.0, next),
        );
        let v = if item.1 == ImpactSnapshot::Previous {
            s1.2
        } else {
            s1.3
        };
        if visit_get(v, s.0) matches Some(d) && d <= next {
            (a, s1.1, s1.2, s1.3)
        } else {
            let v2 = visit_set(v, s.0, next);
            let q = s1.1.push((s.0, item.1, next, item.3));
            if item.1 == ImpactSnapshot::Previous {
                (a, q, v2, s1.3)
            } else {
                (a, q, s1.2, v2)
            }
        }
    }
}

/// One propagation step: take the head of the queue and, below the
/// maximum depth, take its steps in its snapshot.
pub open spec fn impact_step(g0: GraphView, g1: GraphView, o: ImpactOptionsView, st: AnalysisView) -> AnalysisView {
    if st.1.len() == 0 {
        st
    } else {
        let item = st.1[0];
        let popped = (st.0, st.1.drop_first(), st.2, st.3);
        if item.2 == o.0 {
            popped
        } else {
            let g = if item.1 == ImpactSnapshot::Previous {
                g0
            } else {
                g1
            };
            take_steps(g0, g1, popped, item, item_steps(g, item, o))
        }
    }
}

/// The state after `n` propagation steps.
pub open spec fn impact_run(g0: GraphView, g1: GraphView, o: ImpactOptionsView, st: AnalysisView, n: nat) -> AnalysisView
    decreases n,
{
    if n == 0 {
        st
    } else {
        impact_run(g0, g1, o, impact_step(g0, g1, o, st), (n - 1) as nat)
    }
}

/// Affected nodes in identifier order.
pub open spec fn affected_by_id(a: Seq<AffectedNodeView>) -> Seq<AffectedNodeView> {
    crate::ordered::values_of(
        crate::ordered::sorted_unique(a.map_values(|x: AffectedNodeView| ((x.0, Seq::<char>::empty()), x))),
    )
}

/// Inserts a reason into ordered reasons unless an equal one is present.
pub(crate) fn insert_reason(reasons: &mut Vec<ImpactReason>, reason: ImpactReason)
    ensures
        final(reasons)@.map_values(|r: ImpactReason| r@) == reason_insert(
            old(reasons)@.map_values(|r: ImpactReason| r@),
            reason@,
        ),
{
    let ghost rs = reasons@.map_values(|r: ImpactReason| r@);
    let key = reason_key_of(&reason);
    let mut p: usize = 0;
    let mut found = false;
    while p < reasons.len() && !found
        invariant
            p <= reasons@.len(),
            rs == reasons@.map_values(|r: ImpactReason| r@),
            key_view(key@) == reason_key(reason@),
            !found ==> reason_pos(rs, reason_key(reason@), p as int) == reason_pos(rs, reason_key(reason@), 0),
            found ==> p < reasons@.len() && reason_pos(rs, reason_key(reason@), 0) == p && !crate::ranked::parts_lt(
                reason_key(rs[p as int]),
                reason_key(reason@),
            ),
        decreases reasons@.len() - p, if found { 0int } else { 1int },
    {
        let k = reason_key_of(&reasons[p]);
        if crate::ranked::parts_less(&k, &key) {
            p = p + 1;
        } else {
            found = true;
        }
    }
    let present = if p < reasons.len() {
        let k = reason_key_of(&reasons[p]);
        crate::ranked::parts_equal(&k, &key)
    } else {
        false
    };
    if !present {
        reasons.insert(p, reason);
        assert(reasons@.map_values(|r: ImpactReason| r@) =~= rs.insert(p as int, reason@));
    }
}

/// Once a prefix of the changes fails, the whole list fails the same way.
proof fn lemma_node_seed_list_error(g: GraphView, cs: Seq<NodeChangeView>, snapshot: ImpactSnapshot, seed_kind: ImpactSeedKind, reason_kind: ImpactReasonKind, propagates: bool, k: int)
    requires
        0 <= k <= cs.len(),
        node_seed_list(g, cs.take(k), snapshot, seed_kind, reason_kind, propagates) is Err,
    ensures
        node_seed_list(g, cs, snapshot, seed_kind, reason_kind, propagates) == node_seed_list(g, cs.take(k), snapshot, seed_kind, reason_kind, propagates),
    decreases cs.len() - k,
{
    if k < cs.len() {
        assert(cs.take(k + 1).drop_last() =~= cs.take(k));
        assert(node_seed_list(g, cs.take(k + 1), snapshot, seed_kind, reason_kind, propagates) == node_seed_list(g, cs.take(k), snapshot, seed_kind, reason_kind, propagates));
        lemma_node_seed_list_error(g, cs, snapshot, seed_kind, reason_kind, propagates, k + 1);
    } else {
        assert(cs.take(k) =~= cs);
    }
}

/// Once a prefix of the changes fails, the whole list fails the same way.
proof fn lemma_modified_node_seeds_error(g0: GraphView, g1: GraphView, cs: Seq<NodeChangeView>, mode: ProvenanceImpactMode, k: int)
    requires
        0 <= k <= cs.len(),
        modified_node_seeds(g0, g1, cs.take(k), mode) is Err,
    ensures
        modified_node_seeds(g0, g1, cs, mode) == modified_node_seeds(g0, g1, cs.take(k), mode),
    decreases cs.len() - k,
{
    if k < cs.len() {
        assert(cs.take(k + 1).drop_last() =~= cs.take(k));
        assert(modified_node_seeds(g0, g1, cs.take(k + 1), mode) == modified_node_seeds(g0, g1, cs.take(k), mode));
        lemma_modified_node_seeds_error(g0, g1, cs, mode, k + 1);
    } else {
        assert(cs.take(k) =~= cs);
    }
}

/// Once a prefix of the changes fails, the whole list fails the same way.
proof fn lemma_edge_seed_list_error(g: GraphView, cs: Seq<EdgeChangeView>, snapshot: ImpactSnapshot, seed_kind: ImpactSeedKind, reason_kind: ImpactReasonKind, propagates: bool, k: int)
    requires
        0 <= k <= cs.len(),
        edge_seed_list(g, cs.take(k), snapshot, seed_kind, reason_kind, propagates) is Err,
    ensures
        edge_seed_list(g, cs, snapshot, seed_kind, reason_kind, propagates) == edge_seed_list(g, cs.take(k), snapshot, seed_kind, reason_kind, propagates),
    decreases cs.len() - k,
{
    if k < cs.len() {
        assert(cs.take(k + 1).drop_last() =~= cs.take(k));
        assert(edge_seed_list(g, cs.take(k + 1), snapshot, seed_kind, reason_kind, propagates) == edge_seed_list(g, cs.take(k), snapshot, seed_kind, reason_kind, propagates));
        lemma_edge_seed_list_error(g, cs, snapshot, seed_kind, reason_kind, propagates, k + 1);
    } else {
        assert(cs.take(k) =~= cs);
    }
}

/// Once a prefix of the changes fails, the whole list fails the same way.
proof fn lemma_modified_edge_seeds_error(g0: GraphView, g1: GraphView, cs: Seq<EdgeChangeView>, mode: ProvenanceImpactMode, k: int)
    requires
        0 <= k <= cs.len(),
        modified_edge_seeds(g0, g1, cs.take(k), mode) is Err,
    ensures
        modified_edge_seeds(g0, g1, cs, mode) == modified_edge_seeds(g0, g1, cs.take(k), mode),
    decreases cs.len() - k,
{
    if k < cs.len() {
        assert(cs.take(k + 1).drop_last() =~= cs.take(k));
        assert(modified_edge_seeds(g0, g1, cs.take(k + 1), mode) == modified_edge_seeds(g0, g1, cs.take(k), mode));
        lemma_modified_edge_seeds_error(g0, g1, cs, mode, k + 1);
    } else {
        assert(cs.take(k) =~= cs);
    }
}

/// Seed work waiting to be added.
struct SeedWork {
    node_id: NodeId,
    node_kind: Option<NodeKind>,
    snapshot: ImpactSnapshot,
    status: ImpactNodeStatus,
    reason: ImpactReason,
    propagates: bool,
}

impl View for SeedWork {
    type V = SeedWorkView;

    closed spec fn view(&self) -> SeedWorkView {
        (self.node_id@, self.node_kind, self.snapshot, self.status, self.reason@, self.propagates)
    }
}

/// Views of seed work.
spec fn seed_views(s: Seq<SeedWork>) -> Seq<SeedWorkView> {
    s.map_values(|w: SeedWork| w@)
}

/// Builds the key of seed work.
#[verifier::spinoff_prover]
fn seed_work_key_of(w: &SeedWork) -> (key: Vec<(usize, String)>)
    ensures
        key_view(key@) == seed_work_key(w@),
{
    let ghost v = w@;
    let mut key: Vec<(usize, String)> = Vec::new();
    push_part(&mut key, 0, w.node_id.as_str());
    push_opt_node_kind_key(&mut key, w.node_kind);
    push_number(&mut key, snapshot_rank_of(w.snapshot));
    push_number(&mut key, status_rank_of(w.status));
    let ghost k1 = key_view(key@);
    assert(k1 =~= text_part(v.0) + opt_node_kind_key(v.1) + num(snapshot_rank(v.2)) + num(status_rank(v.3)));
    let reason = reason_key_of(&w.reason);
    let mut i: usize = 0;
    while i < reason.len()
        invariant
            i <= reason@.len(),
            key_view(reason@) == reason_key(v.4),
            key_view(key@) == k1 + key_view(reason@).take(i as int),
        decreases reason@.len() - i,
    {
        let ghost before = key_view(key@);
        push_part(&mut key, reason[i].0, reason[i].1.as_str());
        assert(key_view(reason@).take(i + 1) =~= key_view(reason@).take(i as int).push(key_view(reason@)[i as int]));
        assert(key_view(key@) =~= k1 + key_view(reason@).take(i + 1));
        i = i + 1;
    }
    assert(key_view(reason@).take(i as int) =~= key_view(reason@));
    push_number(
        &mut key,
        if w.propagates {
            1
        } else {
            0
        },
    );
    assert(key_view(key@) =~= seed_work_key(v));
    key
}

/// Adds seed work for a changed node, which must exist in the queried snapshot.
fn push_node_seed(
    seeds: &mut Vec<SeedWork>,
    query: &SemanticGraphQuery,
    change: &NodeChange,
    snapshot: ImpactSnapshot,
    seed_kind: ImpactSeedKind,
    reason_kind: ImpactReasonKind,
    propagates: bool,
) -> (r: Result<(), ImpactAnalysisError>)
    ensures
        match node_seed_work(query@, change@, snapshot, seed_kind, reason_kind, propagates) {
            Ok(w) => r is Ok && seed_views(final(seeds)@) == seed_views(old(seeds)@).push(w),
            Err(e) => r is Err && impact_error_view(r->Err_0) == e,
        },
{
    let node = match query.node(change.id()) {
        Some(n) => n,
        None => {
            return Err(ImpactAnalysisError::MissingSeedNode { node: change.id().duplicate(), snapshot });
        },
    };
    let seed = ImpactSeed::node(seed_kind, change.id().duplicate());
    let reason = ImpactReason::new(reason_kind, seed, 0, snapshot);
    let status = match seed_kind {
        ImpactSeedKind::NodeRemoved => ImpactNodeStatus::Removed,
        _ => ImpactNodeStatus::DirectlyChanged,
    };
    let ghost before = seeds@;
    seeds.push(
        SeedWork {
            node_id: change.id().duplicate(),
            node_kind: Some(node.kind()),
            snapshot,
            status,
            reason,
            propagates,
        },
    );
    assert(seed_views(seeds@) =~= seed_views(before).push(seeds@[seeds@.len() - 1]@));
    Ok(())
}

/// Adds seed work for both endpoints of a changed edge, which must exist in
/// the queried snapshot together with its endpoints.
fn push_edge_seeds(
    seeds: &mut Vec<SeedWork>,
    query: &SemanticGraphQuery,
    change: &EdgeChange,
    snapshot: ImpactSnapshot,
    seed_kind: ImpactSeedKind,
    reason_kind: ImpactReasonKind,
    propagates: bool,
) -> (r: Result<(), ImpactAnalysisError>)
    ensures
        match edge_seed_works(query@, change@, snapshot, seed_kind, reason_kind, propagates) {
            Ok(ws) => r is Ok && seed_views(final(seeds)@) == seed_views(old(seeds)@) + ws,
            Err(e) => r is Err && impact_error_view(r->Err_0) == e,
        },
{
    if query.edge(change.id()).is_none() {
        return Err(ImpactAnalysisError::MissingSeedEdge { edge: change.id().duplicate(), snapshot });
    }
    let source = match query.node(change.source()) {
        Some(n) => n,
        None => {
            return Err(ImpactAnalysisError::MissingSeedNode { node: change.source().duplicate(), snapshot });
        },
    };
    let target = match query.node(change.target()) {
        Some(n) => n,
        None => {
            return Err(ImpactAnalysisError::MissingSeedNode { node: change.target().duplicate(), snapshot });
        },
    };
    let seed = ImpactSeed::edge(seed_kind, change.id().duplicate());
    let ghost before = seeds@;
    let first = ImpactReason::new(reason_kind, seed.duplicate(), 0, snapshot).with_source_node(
        change.source().duplicate(),
    ).with_edge(change.id().duplicate(), change.edge_kind());
    seeds.push(
        SeedWork {
            node_id: change.source().duplicate(),
            node_kind: Some(source.kind()),
            snapshot,
            status: ImpactNodeStatus::DirectlyChanged,
            reason: first,
            propagates,
        },
    );
    let second = ImpactReason::new(reason_kind, seed, 0, snapshot).with_source_node(change.target().duplicate()).with_edge(
        change.id().duplicate(),
        change.edge_kind(),
    );
    seeds.push(
        SeedWork {
            node_id: change.target().duplicate(),
            node_kind: Some(target.kind()),
            snapshot,
            status: ImpactNodeStatus::DirectlyChanged,
            reason: second,
            propagates,
        },
    );
    assert(seed_views(seeds@) =~= seed_views(before) + seq![
        seeds@[seeds@.len() - 2]@,
        seeds@[seeds@.len() - 1]@,
    ]);
    Ok(())
}

/// Adds seed work for each changed node in order; the first error wins.
fn push_node_seeds(
    seeds: &mut Vec<SeedWork>,
    query: &SemanticGraphQuery,
    changes: &[NodeChange],
    snapshot: ImpactSnapshot,
    seed_kind: ImpactSeedKind,
    reason_kind: ImpactReasonKind,
    propagates: bool,
) -> (r: Result<(), ImpactAnalysisError>)
    ensures
        match node_seed_list(query@, node_change_views(changes@), snapshot, seed_kind, reason_kind, propagates) {
            Ok(ws) => r is Ok && seed_views(final(seeds)@) == seed_views(old(seeds)@) + ws,
            Err(e) => r is Err && impact_error_view(r->Err_0) == e,
        },
{
    let ghost cs = node_change_views(changes@);
    let ghost base = seed_views(seeds@);
    let mut i: usize = 0;
    assert(cs.take(0) =~= Seq::empty());
    assert(seed_views(seeds@).skip(base.len() as int) =~= Seq::<SeedWorkView>::empty());
    assert(seed_views(seeds@).take(base.len() as int) =~= base);
    while i < changes.len()
        invariant
            i <= changes@.len(),
            cs == node_change_views(changes@),
            node_seed_list(query@, cs.take(i as int), snapshot, seed_kind, reason_kind, propagates) == Ok::<
                Seq<SeedWorkView>,
                ImpactErrorView,
            >(seed_views(seeds@).skip(base.len() as int)),
            seed_views(seeds@).take(base.len() as int) == base,
            base.len() <= seeds@.len(),
        decreases changes@.len() - i,
    {
        let ghost before = seed_views(seeds@);
        assert(cs.take(i + 1).drop_last() =~= cs.take(i as int));
        assert(cs.take(i + 1).last() == changes@[i as int]@);
        match push_node_seed(seeds, query, &changes[i], snapshot, seed_kind, reason_kind, propagates) {
            Ok(()) => {},
            Err(e) => {
                proof {
                    lemma_node_seed_list_error(query@, cs, snapshot, seed_kind, reason_kind, propagates, i + 1);
                    assert(cs.take(i + 1) =~= cs.take(i + 1));
                }
                return Err(e);
            },
        }
        assert(seed_views(seeds@).skip(base.len() as int) =~= before.skip(base.len() as int).push(
            seed_views(seeds@).last(),
        ));
        assert(seed_views(seeds@).take(base.len() as int) =~= before.take(base.len() as int));
        i = i + 1;
    }
    assert(cs.take(i as int) =~= cs);
    assert(seed_views(seeds@) =~= base + seed_views(seeds@).skip(base.len() as int));
    Ok(())
}

/// Adds seed work for each changed edge in order; the first error wins.
fn push_edge_seed_list(
    seeds: &mut Vec<SeedWork>,
    query: &SemanticGraphQuery,
    changes: &[EdgeChange],
    snapshot: ImpactSnapshot,
    seed_kind: ImpactSeedKind,
    reason_kind: ImpactReasonKind,
    propagates: bool,
) -> (r: Result<(), ImpactAnalysisError>)
    ensures
        match edge_seed_list(query@, edge_change_views(changes@), snapshot, seed_kind, reason_kind, propagates) {
            Ok(ws) => r is Ok && seed_views(final(seeds)@) == seed_views(old(seeds)@) + ws,
            Err(e) => r is Err && impact_error_view(r->Err_0) == e,
        },
{
    let ghost cs = edge_change_views(changes@);
    let ghost base = seed_views(seeds@);
    let mut i: usize = 0;
    assert(cs.take(0) =~= Seq::empty());
    assert(seed_views(seeds@).skip(base.len() as int) =~= Seq::<SeedWorkView>::empty());
    assert(seed_views(seeds@).take(base.len() as int) =~= base);
    while i < changes.len()
        invariant
            i <= changes@.len(),
            cs == edge_change_views(changes@),
            edge_seed_list(query@, cs.take(i as int), snapshot, seed_kind, reason_kind, propagates) == Ok::<
                Seq<SeedWorkView>,
                ImpactErrorView,
            >(seed_views(seeds@).skip(base.len() as int)),
            seed_views(seeds@).take(base.len() as int) == base,
            base.len() <= seeds@.len(),
        decreases changes@.len() - i,
    {
        let ghost before = seed_views(seeds@);
        assert(cs.take(i + 1).drop_last() =~= cs.take(i as int));
        assert(cs.take(i + 1).last() == changes@[i as int]@);
        match push_edge_seeds(seeds, query, &changes[i], snapshot, seed_kind, reason_kind, propagates) {
            Ok(()) => {},
            Err(e) => {
                proof {
                    lemma_edge_seed_list_error(query@, cs, snapshot, seed_kind, reason_kind, propagates, i + 1);
                }
                return Err(e);
            },
        }
        let ghost added = seed_views(seeds@).skip(before.len() as int);
        proof {
            let ws = edge_seed_works(query@, cs[i as int], snapshot, seed_kind, reason_kind, propagates)->Ok_0;
            assert(seed_views(seeds@) == before + ws);
            assert(added =~= ws);
        }
        assert(seed_views(seeds@) =~= before + added);
        assert(seed_views(seeds@).skip(base.len() as int) =~= before.skip(base.len() as int) + added);
        assert(seed_views(seeds@).take(base.len() as int) =~= before.take(base.len() as int));
        i = i + 1;
    }
    assert(cs.take(i as int) =~= cs);
    assert(seed_views(seeds@) =~= base + seed_views(seeds@).skip(base.len() as int));
    Ok(())
}

/// Adds seed work for modified nodes in order; the first error wins.
fn push_modified_node_seeds(
    seeds: &mut Vec<SeedWork>,
    previous: &SemanticGraphQuery,
    current: &SemanticGraphQuery,
    changes: &[NodeChange],
    mode: ProvenanceImpactMode,
) -> (r: Result<(), ImpactAnalysisError>)
    ensures
        match modified_node_seeds(previous@, current@, node_change_views(changes@), mode) {
            Ok(ws) => r is Ok && seed_views(final(seeds)@) == seed_views(old(seeds)@) + ws,
            Err(e) => r is Err && impact_error_view(r->Err_0) == e,
        },
{
    let ghost cs = node_change_views(changes@);
    let ghost base = seed_views(seeds@);
    let mut i: usize = 0;
    assert(cs.take(0) =~= Seq::empty());
    assert(seed_views(seeds@).skip(base.len() as int) =~= Seq::<SeedWorkView>::empty());
    assert(seed_views(seeds@).take(base.len() as int) =~= base);
    while i < changes.len()
        invariant
            i <= changes@.len(),
            cs == node_change_views(changes@),
            modified_node_seeds(previous@, current@, cs.take(i as int), mode) == Ok::<
                Seq<SeedWorkView>,
                ImpactErrorView,
            >(seed_views(seeds@).skip(base.len() as int)),
            seed_views(seeds@).take(base.len() as int) == base,
            base.len() <= seeds@.len(),
        decreases changes@.len() - i,
    {
        let ghost before = seed_views(seeds@);
        assert(cs.take(i + 1).drop_last() =~= cs.take(i as int));
        assert(cs.take(i + 1).last() == changes@[i as int]@);
        let change = &changes[i];
        assert(cs[i as int] == change@);
        let provenance_only = crate::graph::impact::is_provenance_only_node_change(change.modified_aspects());
        if !(mode == ProvenanceImpactMode::Exclude && provenance_only) {
            let propagates = !provenance_only || mode == ProvenanceImpactMode::Propagate;
            match push_node_seed(
                seeds,
                previous,
                change,
                ImpactSnapshot::Previous,
                ImpactSeedKind::NodeModified,
                ImpactReasonKind::NodeModified,
                propagates,
            ) {
                Ok(()) => {},
                Err(e) => {
                    proof {
                        lemma_modified_node_seeds_error(previous@, current@, cs, mode, i + 1);
                    }
                    return Err(e);
                },
            }
            match push_node_seed(
                seeds,
                current,
                change,
                ImpactSnapshot::Current,
                ImpactSeedKind::NodeModified,
                ImpactReasonKind::NodeModified,
                propagates,
            ) {
                Ok(()) => {},
                Err(e) => {
                    proof {
                        lemma_modified_node_seeds_error(previous@, current@, cs, mode, i + 1);
                    }
                    return Err(e);
                },
            }
        }
        let ghost added = seed_views(seeds@).skip(before.len() as int);
        proof {
            if !(mode == ProvenanceImpactMode::Exclude && provenance_only) {
                let propagates = !provenance_only || mode == ProvenanceImpactMode::Propagate;
                let w0 = node_seed_work(
                    previous@,
                    cs[i as int],
                    ImpactSnapshot::Previous,
                    ImpactSeedKind::NodeModified,
                    ImpactReasonKind::NodeModified,
                    propagates,
                )->Ok_0;
                let w1 = node_seed_work(
                    current@,
                    cs[i as int],
                    ImpactSnapshot::Current,
                    ImpactSeedKind::NodeModified,
                    ImpactReasonKind::NodeModified,
                    propagates,
                )->Ok_0;
                assert(added =~= seq![w0, w1]);
                assert(before.skip(base.len() as int) + added =~= before.skip(base.len() as int).push(w0).push(w1));
            } else {
                assert(added =~= Seq::<SeedWorkView>::empty());
            }
        }
        assert(seed_views(seeds@) =~= before + added);
        assert(seed_views(seeds@).skip(base.len() as int) =~= before.skip(base.len() as int) + added);
        assert(seed_views(seeds@).take(base.len() as int) =~= before.take(base.len() as int));
        i = i + 1;
    }
    assert(cs.take(i as int) =~= cs);
    assert(seed_views(seeds@) =~= base + seed_views(seeds@).skip(base.len() as int));
    Ok(())
}

/// Adds seed work for modified edges in order; none when provenance is
/// excluded, and the first error wins.
fn push_modified_edge_seeds(
    seeds: &mut Vec<SeedWork>,
    previous: &SemanticGraphQuery,
    current: &SemanticGraphQuery,
    changes: &[EdgeChange],
    mode: ProvenanceImpactMode,
) -> (r: Result<(), ImpactAnalysisError>)
    ensures
        match modified_edge_seeds(previous@, current@, edge_change_views(changes@), mode) {
            Ok(ws) => r is Ok && seed_views(final(seeds)@) == seed_views(old(seeds)@) + ws,
            Err(e) => r is Err && impact_error_view(r->Err_0) == e,
        },
{
    let ghost cs = edge_change_views(changes@);
    let ghost base = seed_views(seeds@);
    if mode == ProvenanceImpactMode::Exclude {
        assert(seed_views(seeds@) =~= base + Seq::<SeedWorkView>::empty());
        return Ok(());
    }
    let propagates = mode == ProvenanceImpactMode::Propagate;
    let mut i: usize = 0;
    assert(cs.take(0) =~= Seq::empty());
    assert(seed_views(seeds@).skip(base.len() as int) =~= Seq::<SeedWorkView>::empty());
    assert(seed_views(seeds@).take(base.len() as int) =~= base);
    while i < changes.len()
        invariant
            i <= changes@.len(),
            cs == edge_change_views(changes@),
            mode != ProvenanceImpactMode::Exclude,
            propagates == (mode == ProvenanceImpactMode::Propagate),
            modified_edge_seeds(previous@, current@, cs.take(i as int), mode) == Ok::<
                Seq<SeedWorkView>,
                ImpactErrorView,
            >(seed_views(seeds@).skip(base.len() as int)),
            seed_views(seeds@).take(base.len() as int) == base,
            base.len() <= seeds@.len(),
        decreases changes@.len() - i,
    {
        let ghost before = seed_views(seeds@);
        assert(cs.take(i + 1).drop_last() =~= cs.take(i as int));
        assert(cs.take(i + 1).last() == changes@[i as int]@);
        let change = &changes[i];
        assert(cs[i as int] == change@);
        match push_edge_seeds(
            seeds,
            previous,
            change,
            ImpactSnapshot::Previous,
            ImpactSeedKind::EdgeModified,
            ImpactReasonKind::EdgeModified,
            propagates,
        ) {
            Ok(()) => {},
            Err(e) => {
                proof {
                    lemma_modified_edge_seeds_error(previous@, current@, cs, mode, i + 1);
                }
                return Err(e);
            },
        }
        let ghost middle = seed_views(seeds@);
        match push_edge_seeds(
            seeds,
            current,
            change,
            ImpactSnapshot::Current,
            ImpactSeedKind::EdgeModified,
            ImpactReasonKind::EdgeModified,
            propagates,
        ) {
            Ok(()) => {},
            Err(e) => {
                proof {
                    lemma_modified_edge_seeds_error(previous@, current@, cs, mode, i + 1);
                }
                return Err(e);
            },
        }
        let ghost added = seed_views(seeds@).skip(before.len() as int);
        proof {
            let w0 = edge_seed_works(
                previous@,
                cs[i as int],
                ImpactSnapshot::Previous,
                ImpactSeedKind::EdgeModified,
                ImpactReasonKind::EdgeModified,
                propagates,
            )->Ok_0;
            let w1 = edge_seed_works(
                current@,
                cs[i as int],
                ImpactSnapshot::Current,
                ImpactSeedKind::EdgeModified,
                ImpactReasonKind::EdgeModified,
                propagates,
            )->Ok_0;
            assert(middle == before + w0);
            assert(seed_views(seeds@) == middle + w1);
            assert(added =~= w0 + w1);
            assert(before.skip(base.len() as int) + added =~= before.skip(base.len() as int) + w0 + w1);
        }
        assert(seed_views(seeds@) =~= before + added);
        assert(seed_views(seeds@).skip(base.len() as int) =~= before.skip(base.len() as int) + added);
        assert(seed_views(seeds@).take(base.len() as int) =~= before.take(base.len() as int));
        i = i + 1;
    }
    assert(cs.take(i as int) =~= cs);
    assert(seed_views(seeds@) =~= base + seed_views(seeds@).skip(base.len() as int));
    Ok(())
}

/// Orders seed work by key without repeats.
fn order_seeds(seeds: Vec<SeedWork>) -> (r: Vec<SeedWork>)
    ensures
        seed_views(r@) == ordered_seeds(seed_views(seeds@)),
{
    let ghost all = seed_views(seeds@);
    let mut rest = seeds;
    let mut items: Vec<Ranked<SeedWork>> = Vec::new();
    let total = rest.len();
    while rest.len() > 0
        invariant
            items@.len() + rest@.len() == total,
            total == all.len(),
            seed_views(rest@) == all.skip(items@.len() as int),
            ranked_views(items@) == all.take(items@.len() as int).map_values(
                |w: SeedWorkView| (seed_work_key(w), w),
            ),
        decreases rest@.len(),
    {
        let ghost before = rest@;
        let ghost n: int = items@.len() as int;
        let w = rest.remove(0);
        assert(seed_views(rest@) =~= all.skip(n + 1)) by {
            assert forall|j: int| 0 <= j < rest@.len() implies seed_views(rest@)[j] == all.skip(n + 1)[j] by {
                assert(rest@[j] == before[j + 1]);
                assert(seed_views(before)[j + 1] == all.skip(n)[j + 1]);
            }
        }
        assert(seed_views(before)[0] == all[n]);
        let key = seed_work_key_of(&w);
        let ghost done = items@;
        items.push(Ranked { key, value: w });
        assert(all.take(n + 1) =~= all.take(n).push(all[n]));
        assert(ranked_views(items@) =~= ranked_views(done).push((seed_work_key(all[n]), all[n])));
    }
    assert(all.take(total as int) =~= all);
    let sorted = rank_sort_unique(items);
    let r = ranked_values(sorted);
    assert(seed_views(r@) =~= r@.map_values(|v: SeedWork| v@));
    r
}

/// The seeds of a diff, ordered without repeats, or the first seed missing
/// from the snapshot where it must exist.
fn collect_seed_work(
    previous: &SemanticGraphQuery,
    current: &SemanticGraphQuery,
    diff: &SemanticGraphDiff,
    options: &SemanticImpactOptions,
) -> (r: Result<Vec<SeedWork>, ImpactAnalysisError>)
    ensures
        match collect_seeds(previous@, current@, diff@, options@) {
            Ok(ws) => r is Ok && seed_views(r->Ok_0@) == ws,
            Err(e) => r is Err && impact_error_view(r->Err_0) == e,
        },
{
    let ghost (g0, g1, d, o) = (previous@, current@, diff@, options@);
    let mut seeds: Vec<SeedWork> = Vec::new();
    assert(seed_views(seeds@) =~= Seq::<SeedWorkView>::empty());
    if let Err(e) = push_node_seeds(
        &mut seeds,
        current,
        diff.added_nodes(),
        ImpactSnapshot::Current,
        ImpactSeedKind::NodeAdded,
        ImpactReasonKind::NodeAdded,
        true,
    ) {
        return Err(e);
    }
    let ghost s1 = seed_views(seeds@);
    if let Err(e) = push_node_seeds(
        &mut seeds,
        previous,
        diff.removed_nodes(),
        ImpactSnapshot::Previous,
        ImpactSeedKind::NodeRemoved,
        ImpactReasonKind::NodeRemoved,
        true,
    ) {
        return Err(e);
    }
    let ghost s2 = seed_views(seeds@);
    if let Err(e) = push_modified_node_seeds(
        &mut seeds,
        previous,
        current,
        diff.modified_nodes(),
        options.provenance_mode(),
    ) {
        return Err(e);
    }
    let ghost s3 = seed_views(seeds@);
    if let Err(e) = push_edge_seed_list(
        &mut seeds,
        current,
        diff.added_edges(),
        ImpactSnapshot::Current,
        ImpactSeedKind::EdgeAdded,
        ImpactReasonKind::EdgeAdded,
        true,
    ) {
        return Err(e);
    }
    let ghost s4 = seed_views(seeds@);
    if let Err(e) = push_edge_seed_list(
        &mut seeds,
        previous,
        diff.removed_edges(),
        ImpactSnapshot::Previous,
        ImpactSeedKind::EdgeRemoved,
        ImpactReasonKind::EdgeRemoved,
        true,
    ) {
        return Err(e);
    }
    let ghost s5 = seed_views(seeds@);
    if let Err(e) = push_modified_edge_seeds(
        &mut seeds,
        previous,
        current,
        diff.modified_edges(),
        options.provenance_mode(),
    ) {
        return Err(e);
    }
    proof {
        let a = node_seed_list(
            g1,
            d.0,
            ImpactSnapshot::Current,
            ImpactSeedKind::NodeAdded,
            ImpactReasonKind::NodeAdded,
            true,
        )->Ok_0;
        let b = node_seed_list(
            g0,
            d.1,
            ImpactSnapshot::Previous,
            ImpactSeedKind::NodeRemoved,
            ImpactReasonKind::NodeRemoved,
            true,
        )->Ok_0;
        let c = modified_node_seeds(g0, g1, d.2, o.3)->Ok_0;
        let e1 = edge_seed_list(
            g1,
            d.3,
            ImpactSnapshot::Current,
            ImpactSeedKind::EdgeAdded,
            ImpactReasonKind::EdgeAdded,
            true,
        )->Ok_0;
        let e2 = edge_seed_list(
            g0,
            d.4,
            ImpactSnapshot::Previous,
            ImpactSeedKind::EdgeRemoved,
            ImpactReasonKind::EdgeRemoved,
            true,
        )->Ok_0;
        let e3 = modified_edge_seeds(g0, g1, d.5, o.3)->Ok_0;
        assert(s1 =~= a);
        assert(seed_views(seeds@) =~= a + b + c + e1 + e2 + e3);
    }
    Ok(order_seeds(seeds))
}

/// The graph of a snapshot.
pub open spec fn snapshot_graph(g0: GraphView, g1: GraphView, s: ImpactSnapshot) -> GraphView {
    if s == ImpactSnapshot::Previous {
        g0
    } else {
        g1
    }
}


proof fn lemma_relation_entries_present(
    nodes: Seq<NodeView>,
    e: Seq<EdgeView>,
    direction: SemanticGraphTraversalDirection,
)
    requires
        crate::graph::semantic_graph::nodes_sorted(nodes),
    ensures
        forall|k: int|
            0 <= k < crate::graph::semantic_query::relation_entries(nodes, e, direction).len() ==> lookup(
                nodes,
                (#[trigger] crate::graph::semantic_query::relation_entries(nodes, e, direction)[k]).1.0.id,
            ) is Some,
    decreases e.len(),
{
    if e.len() > 0 {
        lemma_relation_entries_present(nodes, e.drop_last(), direction);
        let x = e.last();
        let far = crate::graph::semantic_query::far_end(x, crate::graph::semantic_query::is_downstream(direction));
        crate::graph::semantic_graph::lemma_lookup(nodes, far);
        if let Some(v) = lookup(nodes, far) {
            crate::graph::semantic_graph::lemma_lookup(nodes, v.id);
        }
    }
}

proof fn lemma_containment_steps_present(
    nodes: Seq<NodeView>,
    e: Seq<EdgeView>,
    to_owner: bool,
    snapshot: ImpactSnapshot,
)
    requires
        crate::graph::semantic_graph::nodes_sorted(nodes),
    ensures
        forall|k: int|
            0 <= k < containment_steps(nodes, e, to_owner, snapshot).len() ==> lookup(
                nodes,
                (#[trigger] containment_steps(nodes, e, to_owner, snapshot)[k]).0,
            ) is Some,
    decreases e.len(),
{
    if e.len() > 0 {
        lemma_containment_steps_present(nodes, e.drop_last(), to_owner, snapshot);
        let x = e.last();
        let far = if to_owner {
            x.source
        } else {
            x.target
        };
        crate::graph::semantic_graph::lemma_lookup(nodes, far);
        if let Some(v) = lookup(nodes, far) {
            crate::graph::semantic_graph::lemma_lookup(nodes, v.id);
        }
    }
}

/// Every step from a queued node reaches a node of the graph it was taken in.
proof fn lemma_item_steps_present(g: GraphView, item: ItemView, o: ImpactOptionsView)
    requires
        graph_wf(g),
    ensures
        forall|k: int|
            0 <= k < item_steps(g, item, o).len() ==> lookup(g.nodes, (#[trigger] item_steps(g, item, o)[k]).0) is Some,
{
    let rel_edges = crate::graph::semantic_query::filter_kinds(
        edges_at(g, item.0, false),
        o.1,
        true,
    );
    let entries = crate::graph::semantic_query::relation_entries(
        g.nodes,
        rel_edges,
        SemanticGraphTraversalDirection::Upstream,
    );
    lemma_relation_entries_present(g.nodes, rel_edges, SemanticGraphTraversalDirection::Upstream);
    crate::ordered::lemma_sorted_stable_members(entries);
    let rels = relations_of(g, item.0, SemanticGraphTraversalDirection::Upstream, o.1, true);
    assert(rels == crate::ordered::values_of(crate::ordered::sorted_stable(entries)));
    let dep = dependency_steps(g, item, o.1);
    assert forall|k: int| 0 <= k < dep.len() implies lookup(g.nodes, (#[trigger] dep[k]).0) is Some by {
        let t = crate::ordered::sorted_stable(entries);
        assert(dep[k].0 == rels[k].0.id);
        assert(rels[k] == t[k].1);
        let j = choose|j: int| 0 <= j < entries.len() && entries[j] == t[k];
    }
    let up_edges = select_edges(edges_at(g, item.0, false), None, None, Some(EdgeKind::Contains));
    let down_edges = select_edges(edges_at(g, item.0, true), None, None, Some(EdgeKind::Contains));
    lemma_containment_steps_present(g.nodes, up_edges, true, item.1);
    lemma_containment_steps_present(g.nodes, down_edges, false, item.1);
    let own = ownership_steps(g, item, o.2);
    assert forall|k: int| 0 <= k < own.len() implies lookup(g.nodes, (#[trigger] own[k]).0) is Some by {
        let up = if o.2 == OwnershipImpactMode::ChildToOwner || o.2 == OwnershipImpactMode::Bidirectional {
            containment_steps(g.nodes, up_edges, true, item.1)
        } else {
            Seq::empty()
        };
        let down = if o.2 == OwnershipImpactMode::OwnerToChild || o.2 == OwnershipImpactMode::Bidirectional {
            containment_steps(g.nodes, down_edges, false, item.1)
        } else {
            Seq::empty()
        };
        assert(own == up + down);
        if k < up.len() {
            assert(own[k] == up[k]);
        } else {
            assert(own[k] == down[k - up.len()]);
        }
    }
    let all = dep + own;
    assert forall|k: int| 0 <= k < all.len() implies lookup(g.nodes, (#[trigger] all[k]).0) is Some by {
        if k < dep.len() {
            assert(all[k] == dep[k]);
        } else {
            assert(all[k] == own[k - dep.len()]);
        }
    }
    let keyed = all.map_values(|s: StepView| (step_key(s), s));
    crate::ranked::lemma_rank_sorted_members(keyed);
    let sorted = rank_sorted(keyed);
    let steps = item_steps(g, item, o);
    assert forall|k: int| 0 <= k < steps.len() implies lookup(g.nodes, (#[trigger] steps[k]).0) is Some by {
        assert(steps[k] == sorted[k].1);
        let j = choose|j: int| 0 <= j < keyed.len() && keyed[j] == sorted[k];
        assert(keyed[j].1 == all[j]);
    }
}


/// A propagation step waiting to be taken.
struct Step {
    node_id: NodeId,
    node_kind: Option<NodeKind>,
    edge_id: EdgeId,
    edge_kind: EdgeKind,
    snapshot: ImpactSnapshot,
    reason_kind: ImpactReasonKind,
    propagation: ImpactPropagationDirection,
}

impl View for Step {
    type V = StepView;

    closed spec fn view(&self) -> StepView {
        (
            self.node_id@,
            self.node_kind,
            self.edge_id@,
            self.edge_kind,
            self.snapshot,
            self.reason_kind,
            self.propagation,
        )
    }
}

/// Views of steps.
spec fn step_views(s: Seq<Step>) -> Seq<StepView> {
    s.map_values(|x: Step| x@)
}

/// Builds the key of a step.
#[verifier::spinoff_prover]
#[verifier::rlimit(40)]
fn step_key_of(s: &Step) -> (key: Vec<(usize, String)>)
    ensures
        key_view(key@) == step_key(s@),
{
    let mut key: Vec<(usize, String)> = Vec::new();
    push_part(&mut key, 0, s.node_id.as_str());
    push_opt_node_kind_key(&mut key, s.node_kind);
    push_part(&mut key, 0, s.edge_id.as_str());
    let r = rank(s.edge_kind);
    push_number(&mut key, r as usize);
    push_number(&mut key, snapshot_rank_of(s.snapshot));
    push_number(&mut key, reason_kind_rank_of(s.reason_kind));
    push_number(&mut key, propagation_rank_of(s.propagation));
    assert(key_view(key@) =~= step_key(s@));
    key
}

/// Dependency steps from a queued node.
fn dependency_steps_of(query: &SemanticGraphQuery, item: &QueueItem, filter: &SemanticGraphEdgeFilter) -> (r: Vec<
    Step,
>)
    ensures
        step_views(r@) == dependency_steps(query@, item@, filter@),
{
    let rels = query.direct_usages_with_filter(&item.node_id, filter);
    let ghost rv = relation_views(rels@);
    let ghost target = dependency_steps(query@, item@, filter@);
    assert(rv == relations_of(query@, item@.0, SemanticGraphTraversalDirection::Upstream, filter@, true));
    let mut out: Vec<Step> = Vec::new();
    let mut i: usize = 0;
    while i < rels.len()
        invariant
            i <= rels@.len(),
            rv == relation_views(rels@),
            target == dependency_steps(query@, item@, filter@),
            target.len() == rv.len(),
            forall|k: int| #![trigger target[k]] 0 <= k < rv.len() ==> target[k] == (
                rv[k].0.id,
                Some(rv[k].0.kind),
                rv[k].2,
                rv[k].1.kind,
                item@.1,
                ImpactReasonKind::DependencyPropagation,
                ImpactPropagationDirection::DependencyToUsage,
            ),
            step_views(out@) == target.take(i as int),
        decreases rels@.len() - i,
    {
        let rel = &rels[i];
        let node = rel.node();
        let ghost before = out@;
        out.push(
            Step {
                node_id: NodeId::new(node.id().as_str()),
                node_kind: Some(node.kind()),
                edge_id: rel.edge_id().duplicate(),
                edge_kind: rel.edge().kind(),
                snapshot: item.snapshot,
                reason_kind: ImpactReasonKind::DependencyPropagation,
                propagation: ImpactPropagationDirection::DependencyToUsage,
            },
        );
        assert(rv[i as int] == rels@[i as int]@);
        assert(step_views(out@) =~= step_views(before).push(target[i as int]));
        assert(target.take(i + 1) =~= target.take(i as int).push(target[i as int]));
        i = i + 1;
    }
    assert(target.take(i as int) =~= target);
    out
}

/// Appends the ownership steps across the containment edges `edges`, to the
/// owner (`to_owner`) or to the child.
fn push_containment_steps(
    out: &mut Vec<Step>,
    query: &SemanticGraphQuery,
    edges: &Vec<&GraphEdge>,
    to_owner: bool,
    snapshot: ImpactSnapshot,
)
    ensures
        step_views(final(out)@) == step_views(old(out)@) + containment_steps(
            query@.nodes,
            edge_ref_views(edges@),
            to_owner,
            snapshot,
        ),
{
    let ghost base = step_views(out@);
    let ghost ev = edge_ref_views(edges@);
    let mut i: usize = 0;
    while i < edges.len()
        invariant
            i <= edges@.len(),
            ev == edge_ref_views(edges@),
            step_views(out@) == base + containment_steps(query@.nodes, ev.take(i as int), to_owner, snapshot),
        decreases edges@.len() - i,
    {
        let edge = edges[i];
        let ghost x = ev[i as int];
        assert(ev.take(i + 1).drop_last() =~= ev.take(i as int));
        assert(ev.take(i + 1).last() == x);
        let far = if to_owner {
            edge.source()
        } else {
            edge.target()
        };
        match query.node_by_entity_id(far) {
            Some(n) => {
                let ghost before = out@;
                out.push(
                    Step {
                        node_id: NodeId::new(n.id().as_str()),
                        node_kind: Some(n.kind()),
                        edge_id: edge_id(edge.source().as_str(), edge.target().as_str(), edge.kind()),
                        edge_kind: edge.kind(),
                        snapshot,
                        reason_kind: ImpactReasonKind::OwnershipPropagation,
                        propagation: if to_owner {
                            ImpactPropagationDirection::ChildToOwner
                        } else {
                            ImpactPropagationDirection::OwnerToChild
                        },
                    },
                );
                assert(step_views(out@) =~= step_views(before).push(out@[out@.len() - 1]@));
            },
            None => {},
        }
        i = i + 1;
    }
    assert(ev.take(i as int) =~= ev);
}

/// All steps from a queued node, in key order.
fn item_steps_of(query: &SemanticGraphQuery, item: &QueueItem, options: &SemanticImpactOptions) -> (r: Vec<Step>)
    ensures
        step_views(r@) == item_steps(query@, item@, options@),
{
    let mut all = dependency_steps_of(query, item, options.edge_filter());
    let ghost dep = step_views(all@);
    let mode = options.ownership_mode();
    if mode == OwnershipImpactMode::ChildToOwner || mode == OwnershipImpactMode::Bidirectional {
        let edges = query.owner_edges(&item.node_id);
        push_containment_steps(&mut all, query, &edges, true, item.snapshot);
    }
    if mode == OwnershipImpactMode::OwnerToChild || mode == OwnershipImpactMode::Bidirectional {
        let edges = query.outgoing_edges_by_kind(&item.node_id, EdgeKind::Contains);
        push_containment_steps(&mut all, query, &edges, false, item.snapshot);
    }
    let ghost steps = step_views(all@);
    assert(steps =~= dep + ownership_steps(query@, item@, options@.2));
    let mut rest = all;
    let mut items: Vec<Ranked<Step>> = Vec::new();
    let total = rest.len();
    while rest.len() > 0
        invariant
            items@.len() + rest@.len() == total,
            total == steps.len(),
            step_views(rest@) == steps.skip(items@.len() as int),
            ranked_views(items@) == steps.take(items@.len() as int).map_values(|s: StepView| (step_key(s), s)),
        decreases rest@.len(),
    {
        let ghost before = rest@;
        let ghost n: int = items@.len() as int;
        let s = rest.remove(0);
        assert(step_views(rest@) =~= steps.skip(n + 1)) by {
            assert forall|j: int| 0 <= j < rest@.len() implies step_views(rest@)[j] == steps.skip(n + 1)[j] by {
                assert(rest@[j] == before[j + 1]);
                assert(step_views(before)[j + 1] == steps.skip(n)[j + 1]);
            }
        }
        assert(step_views(before)[0] == steps[n]);
        let key = step_key_of(&s);
        let ghost done = items@;
        items.push(Ranked { key, value: s });
        assert(steps.take(n + 1) =~= steps.take(n).push(steps[n]));
        assert(ranked_views(items@) =~= ranked_views(done).push((step_key(steps[n]), steps[n])));
    }
    assert(steps.take(total as int) =~= steps);
    let sorted = rank_sort(items);
    let r = ranked_values(sorted);
    assert(step_views(r@) =~= r@.map_values(|v: Step| v@));
    r
}

/// A queued node: identifier, snapshot, depth and the seed it came from.
struct QueueItem {
    node_id: NodeId,
    snapshot: ImpactSnapshot,
    depth: usize,
    seed: ImpactSeed,
}

impl View for QueueItem {
    type V = ItemView;

    closed spec fn view(&self) -> ItemView {
        (self.node_id@, self.snapshot, self.depth, self.seed@)
    }
}

/// Views of visited nodes.
spec fn visit_views(v: Seq<(NodeId, usize)>) -> VisitView {
    v.map_values(|p: (NodeId, usize)| (p.0@, p.1))
}

/// `visit_pos` stops at `p` when no entry in `[i, p)` names `id` and `p` is
/// the end or names `id`.
proof fn lemma_visit_pos_at(v: VisitView, id: Seq<char>, i: int, p: int)
    requires
        0 <= i <= p <= v.len(),
        forall|j: int| i <= j < p ==> (#[trigger] v[j]).0 != id,
        p == v.len() || v[p].0 == id,
    ensures
        visit_pos(v, id, i) == p,
    decreases p - i,
{
    if i < p {
        lemma_visit_pos_at(v, id, i + 1, p);
    }
}

/// Where `visit_pos` stops.
proof fn lemma_visit_pos(v: VisitView, id: Seq<char>, i: int)
    requires
        0 <= i <= v.len(),
    ensures
        i <= visit_pos(v, id, i) <= v.len(),
        forall|j: int| i <= j < visit_pos(v, id, i) ==> (#[trigger] v[j]).0 != id,
        visit_pos(v, id, i) < v.len() ==> v[visit_pos(v, id, i)].0 == id,
    decreases v.len() - i,
{
    if i < v.len() && v[i].0 != id {
        lemma_visit_pos(v, id, i + 1);
    }
}

/// Reading a visited depth after recording one.
proof fn lemma_visit_set_get(v: VisitView, id: Seq<char>, d: usize, other: Seq<char>)
    ensures
        visit_get(visit_set(v, id, d), id) == Some(d),
        other != id ==> visit_get(visit_set(v, id, d), other) == visit_get(v, other),
{
    lemma_visit_pos(v, id, 0);
    lemma_visit_pos(v, other, 0);
    let p = visit_pos(v, id, 0);
    let q = visit_pos(v, other, 0);
    let w = visit_set(v, id, d);
    if p < v.len() {
        assert(w == v.update(p, (id, d)));
        lemma_visit_pos_at(w, id, 0, p);
        if other != id {
            assert forall|j: int| 0 <= j < q implies (#[trigger] w[j]).0 != other by {
                if j != p {
                    assert(w[j] == v[j]);
                }
            }
            if q < v.len() {
                assert(q != p);
                assert(w[q] == v[q]);
            }
            lemma_visit_pos_at(w, other, 0, q);
        }
    } else {
        assert(w == v.push((id, d)));
        assert forall|j: int| 0 <= j < p implies (#[trigger] w[j]).0 != id by {
            assert(w[j] == v[j]);
        }
        lemma_visit_pos_at(w, id, 0, p);
        if other != id {
            if q < v.len() {
                assert forall|j: int| 0 <= j < q implies (#[trigger] w[j]).0 != other by {
                    assert(w[j] == v[j]);
                }
                assert(w[q] == v[q]);
                lemma_visit_pos_at(w, other, 0, q);
            } else {
                assert forall|j: int| 0 <= j < w.len() implies (#[trigger] w[j]).0 != other by {
                    if j < v.len() {
                        assert(w[j] == v[j]);
                    }
                }
                lemma_visit_pos_at(w, other, 0, w.len() as int);
            }
        }
    }
}

/// Position of `id` among visited nodes.
fn find_visit(v: &Vec<(NodeId, usize)>, id: &NodeId) -> (p: usize)
    ensures
        p == visit_pos(visit_views(v@), id@, 0),
        p <= v@.len(),
{
    let ghost vv = visit_views(v@);
    proof {
        lemma_visit_pos(vv, id@, 0);
    }
    let mut p: usize = 0;
    let mut found = false;
    while p < v.len() && !found
        invariant
            p <= v@.len(),
            vv == visit_views(v@),
            vv.len() == v@.len(),
            visit_pos(vv, id@, 0) <= vv.len(),
            !found ==> visit_pos(vv, id@, p as int) == visit_pos(vv, id@, 0),
            found ==> p < v@.len() && visit_pos(vv, id@, 0) == p,
        decreases v@.len() - p, if found { 0int } else { 1int },
    {
        assert(vv[p as int] == (v@[p as int].0@, v@[p as int].1));
        if text_equal(v[p].0.as_str(), id.as_str()) {
            found = true;
        } else {
            p = p + 1;
        }
    }
    p
}

/// The depth at which `id` was visited, if it was.
fn visited_depth(v: &Vec<(NodeId, usize)>, id: &NodeId) -> (r: Option<usize>)
    ensures
        r == visit_get(visit_views(v@), id@),
{
    let p = find_visit(v, id);
    if p < v.len() {
        assert(visit_views(v@)[p as int] == (v@[p as int].0@, v@[p as int].1));
        Some(v[p].1)
    } else {
        None
    }
}

/// Records depth `d` for `id`.
fn record_visit(v: &mut Vec<(NodeId, usize)>, id: &NodeId, d: usize)
    ensures
        visit_views(final(v)@) == visit_set(visit_views(old(v)@), id@, d),
{
    let ghost before = visit_views(v@);
    let p = find_visit(v, id);
    if p < v.len() {
        v.set(p, (id.duplicate(), d));
        assert(visit_views(v@) =~= before.update(p as int, (id@, d)));
    } else {
        v.push((id.duplicate(), d));
        assert(visit_views(v@) =~= before.push((id@, d)));
    }
}

/// One node's share of the potential: its visited depth, or `cap` when not
/// visited.
pub open spec fn visit_term(v: VisitView, id: Seq<char>, cap: int) -> int {
    match visit_get(v, id) {
        Some(d) => d as int,
        None => cap,
    }
}

/// Sum of the shares of the nodes `ns`; it falls each time a node is
/// visited at a smaller depth, which bounds the propagation.
pub open spec fn potential(ns: Seq<NodeView>, v: VisitView, cap: int) -> int
    decreases ns.len(),
{
    if ns.len() == 0 {
        0
    } else {
        potential(ns.drop_last(), v, cap) + visit_term(v, ns.last().id, cap)
    }
}

proof fn lemma_potential_nonneg(ns: Seq<NodeView>, v: VisitView, cap: int)
    requires
        cap >= 0,
    ensures
        potential(ns, v, cap) >= 0,
    decreases ns.len(),
{
    if ns.len() > 0 {
        lemma_potential_nonneg(ns.drop_last(), v, cap);
    }
}

/// Recording a smaller depth for `id` lowers the potential, strictly when
/// `id` names one of the nodes.
proof fn lemma_potential_set(ns: Seq<NodeView>, v: VisitView, id: Seq<char>, d: usize, cap: int)
    requires
        d < visit_term(v, id, cap),
    ensures
        potential(ns, visit_set(v, id, d), cap) <= potential(ns, v, cap),
        (exists|k: int| 0 <= k < ns.len() && (#[trigger] ns[k]).id == id) ==> potential(
            ns,
            visit_set(v, id, d),
            cap,
        ) < potential(ns, v, cap),
    decreases ns.len(),
{
    if ns.len() > 0 {
        let rest = ns.drop_last();
        lemma_potential_set(rest, v, id, d, cap);
        let x = ns.last().id;
        lemma_visit_set_get(v, id, d, x);
        if exists|k: int| 0 <= k < ns.len() && (#[trigger] ns[k]).id == id {
            let k = choose|k: int| 0 <= k < ns.len() && (#[trigger] ns[k]).id == id;
            if k < ns.len() - 1 {
                assert(rest[k] == ns[k]);
            }
        }
    }
}

/// Views of affected nodes.
spec fn affected_views(a: Seq<AffectedNode>) -> Seq<AffectedNodeView> {
    a.map_values(|n: AffectedNode| n@)
}

/// Views of queued nodes.
spec fn queue_views(q: Seq<QueueItem>) -> Seq<ItemView> {
    q.map_values(|x: QueueItem| x@)
}

/// Position of the affected node `id`.
fn find_affected(a: &Vec<AffectedNode>, id: &NodeId) -> (p: usize)
    ensures
        p == affected_pos(affected_views(a@), id@, 0),
        p <= a@.len(),
{
    let ghost av = affected_views(a@);
    let mut p: usize = 0;
    let mut found = false;
    while p < a.len() && !found
        invariant
            p <= a@.len(),
            av == affected_views(a@),
            !found ==> affected_pos(av, id@, p as int) == affected_pos(av, id@, 0),
            found ==> p < a@.len() && affected_pos(av, id@, 0) == p,
        decreases a@.len() - p, if found { 0int } else { 1int },
    {
        assert(av[p as int] == a@[p as int]@);
        if text_equal(a[p].node_id().as_str(), id.as_str()) {
            found = true;
        } else {
            p = p + 1;
        }
    }
    proof {
        if !found {
            assert(affected_pos(av, id@, p as int) == p);
        }
    }
    p
}

/// Records that `node_id` is affected with a status, depth and reason.
fn add_affected_node(
    affected: &mut Vec<AffectedNode>,
    previous: &SemanticGraphQuery,
    current: &SemanticGraphQuery,
    node_id: &NodeId,
    kind: Option<NodeKind>,
    status: ImpactNodeStatus,
    depth: usize,
    reason: ImpactReason,
)
    ensures
        affected_views(final(affected)@) == add_affected(
            previous@,
            current@,
            affected_views(old(affected)@),
            node_id@,
            kind,
            status,
            depth,
            reason@,
        ),
{
    let ghost before = affected_views(affected@);
    let p = find_affected(affected, node_id);
    if p < affected.len() {
        let ghost vs = affected@;
        let mut x = affected.remove(p);
        assert(x@ == before[p as int]);
        x.add_reason(status, depth, reason);
        affected.insert(p, x);
        assert(affected_views(affected@) =~= before.update(p as int, x@));
    } else {
        let in_previous = previous.node(node_id).is_some();
        let in_current = current.node(node_id);
        let availability = match in_current {
            Some(_) => if in_previous {
                ImpactNodeAvailability::Both
            } else {
                ImpactNodeAvailability::CurrentOnly
            },
            None => ImpactNodeAvailability::PreviousOnly,
        };
        let node_kind = match kind {
            Some(k) => Some(k),
            None => match in_current {
                Some(n) => Some(n.kind()),
                None => match previous.node(node_id) {
                    Some(n) => Some(n.kind()),
                    None => None,
                },
            },
        };
        let ghost before_vec = affected@;
        affected.push(AffectedNode::new(node_id.duplicate(), node_kind, status, availability, depth, reason));
        assert(affected_views(affected@) =~= before.push(affected@[affected@.len() - 1]@));
    }
}

/// Every depth in the state is within `max`.
pub open spec fn depths_within(st: AnalysisView, max: usize) -> bool {
    &&& forall|k: int| 0 <= k < st.0.len() ==> (#[trigger] st.0[k]).4 <= max
    &&& forall|k: int| 0 <= k < st.1.len() ==> (#[trigger] st.1[k]).2 <= max
    &&& forall|k: int| 0 <= k < st.2.len() ==> (#[trigger] st.2[k]).1 <= max
    &&& forall|k: int| 0 <= k < st.3.len() ==> (#[trigger] st.3[k]).1 <= max
}

proof fn lemma_add_affected_within(
    g0: GraphView,
    g1: GraphView,
    a: Seq<AffectedNodeView>,
    id: Seq<char>,
    kind: Option<NodeKind>,
    status: ImpactNodeStatus,
    depth: usize,
    reason: ImpactReasonView,
    max: usize,
)
    requires
        forall|k: int| 0 <= k < a.len() ==> (#[trigger] a[k]).4 <= max,
        depth <= max,
    ensures
        forall|k: int|
            0 <= k < add_affected(g0, g1, a, id, kind, status, depth, reason).len() ==> (#[trigger] add_affected(
                g0,
                g1,
                a,
                id,
                kind,
                status,
                depth,
                reason,
            )[k]).4 <= max,
{
    let b = add_affected(g0, g1, a, id, kind, status, depth, reason);
    let p = affected_pos(a, id, 0);
    assert forall|k: int| 0 <= k < b.len() implies (#[trigger] b[k]).4 <= max by {
        if k < a.len() && k != p {
            assert(b[k] == a[k]);
        }
    }
}

proof fn lemma_visit_set_within(v: VisitView, id: Seq<char>, d: usize, max: usize)
    requires
        forall|k: int| 0 <= k < v.len() ==> (#[trigger] v[k]).1 <= max,
        d <= max,
    ensures
        forall|k: int| 0 <= k < visit_set(v, id, d).len() ==> (#[trigger] visit_set(v, id, d)[k]).1 <= max,
{
    let w = visit_set(v, id, d);
    assert forall|k: int| 0 <= k < w.len() implies (#[trigger] w[k]).1 <= max by {
        if k < v.len() && k != visit_pos(v, id, 0) {
            assert(w[k] == v[k]);
        }
    }
}

/// Analysis state: affected nodes, the queue with its head, and the visited
/// nodes of each snapshot.
struct AnalysisState {
    affected: Vec<AffectedNode>,
    queue: Vec<QueueItem>,
    head: usize,
    visited_previous: Vec<(NodeId, usize)>,
    visited_current: Vec<(NodeId, usize)>,
}

impl View for AnalysisState {
    type V = AnalysisView;

    closed spec fn view(&self) -> AnalysisView {
        (
            affected_views(self.affected@),
            queue_views(self.queue@).skip(self.head as int),
            visit_views(self.visited_previous@),
            visit_views(self.visited_current@),
        )
    }
}

/// Adds seed work to the state.
fn add_seed_work(
    st: &mut AnalysisState,
    previous: &SemanticGraphQuery,
    current: &SemanticGraphQuery,
    w: &SeedWork,
)
    requires
        old(st).head <= old(st).queue@.len(),
    ensures
        final(st).head <= final(st).queue@.len(),
        final(st)@ == add_seed(previous@, current@, old(st)@, w@),
{
    let ghost s0 = st@;
    add_affected_node(
        &mut st.affected,
        previous,
        current,
        &w.node_id,
        w.node_kind,
        w.status,
        0,
        w.reason.duplicate(),
    );
    if w.propagates {
        let ghost q0 = st.queue@;
        match w.snapshot {
            ImpactSnapshot::Previous => {
                if visited_depth(&st.visited_previous, &w.node_id).is_none() {
                    record_visit(&mut st.visited_previous, &w.node_id, 0);
                }
            },
            ImpactSnapshot::Current => {
                if visited_depth(&st.visited_current, &w.node_id).is_none() {
                    record_visit(&mut st.visited_current, &w.node_id, 0);
                }
            },
        }
        st.queue.push(
            QueueItem {
                node_id: w.node_id.duplicate(),
                snapshot: w.snapshot,
                depth: 0,
                seed: w.reason.seed().duplicate(),
            },
        );
        assert(queue_views(st.queue@).skip(st.head as int) =~= queue_views(q0).skip(st.head as int).push(
            (w@.0, w@.2, 0usize, w@.4.1),
        ));
    }
}

/// One more propagation step after `n` steps.
proof fn lemma_impact_run_step(g0: GraphView, g1: GraphView, o: ImpactOptionsView, st: AnalysisView, n: nat)
    ensures
        impact_run(g0, g1, o, st, n + 1) == impact_step(g0, g1, o, impact_run(g0, g1, o, st, n)),
    decreases n,
{
    if n > 0 {
        lemma_impact_run_step(g0, g1, o, impact_step(g0, g1, o, st), (n - 1) as nat);
    } else {
        assert(impact_run(g0, g1, o, impact_step(g0, g1, o, st), 0) == impact_step(g0, g1, o, st));
    }
}

/// Work left: queued nodes plus the potential of both snapshots.
pub open spec fn work_left(g0: GraphView, g1: GraphView, st: AnalysisView, cap: int) -> int {
    st.1.len() + potential(g0.nodes, st.2, cap) + potential(g1.nodes, st.3, cap)
}

/// Takes the steps from a popped item in order.
#[verifier::spinoff_prover]
fn take_item_steps(
    st: &mut AnalysisState,
    previous: &SemanticGraphQuery,
    current: &SemanticGraphQuery,
    options: &SemanticImpactOptions,
    item: &QueueItem,
    steps: &Vec<Step>,
)
    requires
        old(st).head <= old(st).queue@.len(),
        item@.2 < options@.0,
        depths_within(old(st)@, options@.0),
        forall|k: int|
            0 <= k < steps@.len() ==> lookup(
                snapshot_graph(previous@, current@, item@.1).nodes,
                (#[trigger] steps@[k])@.0,
            ) is Some,
    ensures
        final(st).head <= final(st).queue@.len(),
        final(st)@ == take_steps(previous@, current@, old(st)@, item@, step_views(steps@)),
        depths_within(final(st)@, options@.0),
        work_left(previous@, current@, final(st)@, options@.0 + 1) <= work_left(
            previous@,
            current@,
            old(st)@,
            options@.0 + 1,
        ),
{
    let ghost g0 = previous@;
    let ghost g1 = current@;
    let ghost max = options@.0;
    let ghost cap: int = max + 1;
    let ghost s0 = st@;
    let ghost sv = step_views(steps@);
    let next = item.depth + 1;
    let mut i: usize = 0;
    while i < steps.len()
        invariant
            i <= steps@.len(),
            g0 == previous@,
            g1 == current@,
            max == options@.0,
            cap == max + 1,
            next == item@.2 + 1,
            next <= max,
            sv == step_views(steps@),
            st.head <= st.queue@.len(),
            st@ == take_steps(g0, g1, s0, item@, sv.take(i as int)),
            depths_within(st@, max),
            work_left(g0, g1, st@, cap) <= work_left(g0, g1, s0, cap),
            forall|k: int|
                0 <= k < steps@.len() ==> lookup(
                    snapshot_graph(g0, g1, item@.1).nodes,
                    (#[trigger] steps@[k])@.0,
                ) is Some,
        decreases steps@.len() - i,
    {
        let ghost s1 = st@;
        let s = &steps[i];
        let ghost sx = sv[i as int];
        assert(sx == s@);
        assert(sv.take(i + 1).drop_last() =~= sv.take(i as int));
        assert(sv.take(i + 1).last() == sx);
        let reason = ImpactReason::new(s.reason_kind, item.seed.duplicate(), next, s.snapshot).with_source_node(
            item.node_id.duplicate(),
        ).with_edge(s.edge_id.duplicate(), s.edge_kind).with_propagation(s.propagation);
        assert(reason@ == step_reason(sx, item@.3, item@.0, next));
        add_affected_node(
            &mut st.affected,
            previous,
            current,
            &s.node_id,
            s.node_kind,
            ImpactNodeStatus::TransitivelyAffected,
            next,
            reason,
        );
        proof {
            lemma_add_affected_within(
                g0,
                g1,
                s1.0,
                sx.0,
                sx.1,
                ImpactNodeStatus::TransitivelyAffected,
                next,
                step_reason(sx, item@.3, item@.0, next),
                max,
            );
        }
        let ghost g = snapshot_graph(g0, g1, item@.1);
        proof {
            assert(lookup(g.nodes, steps@[i as int]@.0) is Some);
            let p = crate::graph::semantic_graph::node_pos(g.nodes, sx.0, 0);
            assert(g.nodes[p].id == sx.0);
        }
        let ghost q0 = st.queue@;
        match item.snapshot {
            ImpactSnapshot::Previous => {
                let seen = visited_depth(&st.visited_previous, &s.node_id);
                let skip = match seen {
                    Some(d) => d <= next,
                    None => false,
                };
                if !skip {
                    proof {
                        lemma_potential_set(g0.nodes, s1.2, sx.0, next, cap);
                        lemma_visit_set_within(s1.2, sx.0, next, max);
                    }
                    record_visit(&mut st.visited_previous, &s.node_id, next);
                    st.queue.push(
                        QueueItem {
                            node_id: s.node_id.duplicate(),
                            snapshot: item.snapshot,
                            depth: next,
                            seed: item.seed.duplicate(),
                        },
                    );
                    assert(queue_views(st.queue@).skip(st.head as int) =~= queue_views(q0).skip(
                        st.head as int,
                    ).push((sx.0, item@.1, next, item@.3)));
                }
            },
            ImpactSnapshot::Current => {
                let seen = visited_depth(&st.visited_current, &s.node_id);
                let skip = match seen {
                    Some(d) => d <= next,
                    None => false,
                };
                if !skip {
                    proof {
                        lemma_potential_set(g1.nodes, s1.3, sx.0, next, cap);
                        lemma_visit_set_within(s1.3, sx.0, next, max);
                    }
                    record_visit(&mut st.visited_current, &s.node_id, next);
                    st.queue.push(
                        QueueItem {
                            node_id: s.node_id.duplicate(),
                            snapshot: item.snapshot,
                            depth: next,
                            seed: item.seed.duplicate(),
                        },
                    );
                    assert(queue_views(st.queue@).skip(st.head as int) =~= queue_views(q0).skip(
                        st.head as int,
                    ).push((sx.0, item@.1, next, item@.3)));
                }
            },
        }
        i = i + 1;
    }
    assert(sv.take(i as int) =~= sv);
}

/// Propagates from the queued nodes until the queue is empty.
fn propagate(
    st: &mut AnalysisState,
    previous: &SemanticGraphQuery,
    current: &SemanticGraphQuery,
    options: &SemanticImpactOptions,
)
    requires
        old(st).head <= old(st).queue@.len(),
        graph_wf(previous@),
        graph_wf(current@),
        depths_within(old(st)@, options@.0),
    ensures
        depths_within(final(st)@, options@.0),
        final(st)@.1.len() == 0,
        exists|n: nat|
            #![trigger impact_run(previous@, current@, options@, old(st)@, n)]
            final(st)@ == impact_run(previous@, current@, options@, old(st)@, n),
{
    let ghost start = st@;
    let ghost mut n: nat = 0;
    let max = options.max_depth();
    let ghost cap: int = max + 1;
    proof {
        lemma_potential_nonneg(previous@.nodes, st@.2, cap);
        lemma_potential_nonneg(current@.nodes, st@.3, cap);
    }
    while st.head < st.queue.len()
        invariant
            st.head <= st.queue@.len(),
            graph_wf(previous@),
            graph_wf(current@),
            max == options@.0,
            cap == max + 1,
            st@ == impact_run(previous@, current@, options@, start, n),
            depths_within(st@, max),
        decreases work_left(previous@, current@, st@, cap),
    {
        let ghost s0 = st@;
        let queued = &st.queue[st.head];
        let item = QueueItem {
            node_id: queued.node_id.duplicate(),
            snapshot: queued.snapshot,
            depth: queued.depth,
            seed: queued.seed.duplicate(),
        };
        assert(queue_views(st.queue@).skip(st.head as int)[0] == st.queue@[st.head as int]@);
        assert(item@ == s0.1[0]);
        assert(item@.2 <= max);
        st.head = st.head + 1;
        assert(st@.1 =~= s0.1.drop_first());
        assert(st@.0 == s0.0 && st@.2 == s0.2 && st@.3 == s0.3);
        assert(depths_within(st@, max)) by {
            assert forall|k: int| 0 <= k < st@.1.len() implies (#[trigger] st@.1[k]).2 <= max by {
                assert(st@.1[k] == s0.1[k + 1]);
            }
        }
        if item.depth != max {
            let query = match item.snapshot {
                ImpactSnapshot::Previous => previous,
                ImpactSnapshot::Current => current,
            };
            let steps = item_steps_of(query, &item, options);
            proof {
                lemma_item_steps_present(query@, item@, options@);
                assert forall|k: int| 0 <= k < steps@.len() implies lookup(
                    snapshot_graph(previous@, current@, item@.1).nodes,
                    (#[trigger] steps@[k])@.0,
                ) is Some by {
                    assert(step_views(steps@)[k] == steps@[k]@);
                }
            }
            take_item_steps(st, previous, current, options, &item, &steps);
        }
        proof {
            lemma_impact_run_step(previous@, current@, options@, start, n);
            n = n + 1;
            lemma_potential_nonneg(previous@.nodes, st@.2, cap);
            lemma_potential_nonneg(current@.nodes, st@.3, cap);
        }
    }
    assert(st@ == impact_run(previous@, current@, options@, start, n));
}

/// Moves affected nodes into identifier order.
fn sort_affected(a: Vec<AffectedNode>) -> (r: Vec<AffectedNode>)
    ensures
        affected_views(r@) == affected_by_id(affected_views(a@)),
{
    let ghost all = affected_views(a@);
    let ghost keyed = all.map_values(|x: AffectedNodeView| ((x.0, Seq::<char>::empty()), x));
    let mut rest = a;
    let mut items: Vec<crate::ordered::Keyed<AffectedNode>> = Vec::new();
    let total = rest.len();
    while rest.len() > 0
        invariant
            items@.len() + rest@.len() == total,
            total == all.len(),
            keyed == all.map_values(|x: AffectedNodeView| ((x.0, Seq::<char>::empty()), x)),
            affected_views(rest@) == all.skip(items@.len() as int),
            crate::ordered::keyed_views(items@) == keyed.take(items@.len() as int),
        decreases rest@.len(),
    {
        let ghost before = rest@;
        let ghost n: int = items@.len() as int;
        let x = rest.remove(0);
        assert(affected_views(rest@) =~= all.skip(n + 1)) by {
            assert forall|j: int| 0 <= j < rest@.len() implies affected_views(rest@)[j] == all.skip(n + 1)[j] by {
                assert(rest@[j] == before[j + 1]);
                assert(affected_views(before)[j + 1] == all.skip(n)[j + 1]);
            }
        }
        assert(affected_views(before)[0] == all[n]);
        let first = x.node_id().to_string();
        let ghost done = items@;
        items.push(crate::ordered::Keyed { first, second: String::new(), value: x });
        assert(keyed.take(n + 1) =~= keyed.take(n).push(keyed[n]));
        assert(crate::ordered::keyed_views(items@) =~= crate::ordered::keyed_views(done).push(keyed[n]));
    }
    assert(keyed.take(total as int) =~= keyed);
    let sorted = crate::ordered::sort_unique(items);
    let r = crate::ordered::into_values(sorted);
    assert(affected_views(r@) =~= r@.map_values(|v: AffectedNode| v@));
    r
}

/// The state before any seed is added.
pub open spec fn empty_analysis() -> AnalysisView {
    (Seq::empty(), Seq::empty(), Seq::empty(), Seq::empty())
}

/// `nodes` is what the analysis settles on from the seeds `ws`: the
/// propagation runs until the queue is empty, and the affected nodes come
/// out in identifier order.
pub open spec fn settles_on(
    g0: GraphView,
    g1: GraphView,
    o: ImpactOptionsView,
    ws: Seq<SeedWorkView>,
    nodes: Seq<AffectedNodeView>,
) -> bool {
    exists|n: nat|
        #![trigger impact_run(g0, g1, o, add_seeds(g0, g1, empty_analysis(), ws), n)]
        impact_run(g0, g1, o, add_seeds(g0, g1, empty_analysis(), ws), n).1.len() == 0 && nodes == affected_by_id(
            impact_run(g0, g1, o, add_seeds(g0, g1, empty_analysis(), ws), n).0,
        )
}

impl SemanticImpactAnalyzer {
    /// Analyzes graph-level impact for a directional `previous -> current`
    /// diff: removed entities are sought in the previous graph, added ones in
    /// the current graph and modified ones in both; an entity missing from
    /// the snapshot where it must exist is an error.
    pub fn analyze(
        previous_graph: &SemanticGraph,
        current_graph: &SemanticGraph,
        diff: &SemanticGraphDiff,
        options: &SemanticImpactOptions,
    ) -> (r: Result<SemanticImpactResult, ImpactAnalysisError>)
        requires
            diff@.0.len() + diff@.1.len() + diff@.2.len() <= usize::MAX,
            diff@.3.len() + diff@.4.len() + diff@.5.len() <= usize::MAX,
        ensures
            match collect_seeds(previous_graph@, current_graph@, diff@, options@) {
                Err(e) => r is Err && impact_error_view(r->Err_0) == e,
                Ok(ws) => r is Ok && settles_on(
                    previous_graph@,
                    current_graph@,
                    options@,
                    ws,
                    r->Ok_0.spec_nodes(),
                ) && r->Ok_0.spec_summary()@ == summary_of(
                    (diff@.0.len() + diff@.1.len() + diff@.2.len()) as usize,
                    (diff@.3.len() + diff@.4.len() + diff@.5.len()) as usize,
                    r->Ok_0.spec_nodes(),
                    options@.0,
                ),
            },
            r is Ok ==> forall|k: int|
                0 <= k < r->Ok_0.spec_nodes().len() ==> (#[trigger] r->Ok_0.spec_nodes()[k]).4 <= options@.0,
            r is Ok ==> forall|i: int, j: int|
                0 <= i < j < r->Ok_0.spec_nodes().len() ==> crate::text::lex_lt(
                    (#[trigger] r->Ok_0.spec_nodes()[i]).0,
                    (#[trigger] r->Ok_0.spec_nodes()[j]).0,
                ),
    {
        proof {
            use_type_invariant(previous_graph);
            use_type_invariant(current_graph);
        }
        let previous = previous_graph.query();
        let current = current_graph.query();
        let ghost g0 = previous@;
        let ghost g1 = current@;
        let ghost o = options@;
        let seeds = match collect_seed_work(&previous, &current, diff, options) {
            Ok(s) => s,
            Err(e) => {
                return Err(e);
            },
        };
        let ghost ws = seed_views(seeds@);
        let seed_node_changes = diff.added_nodes().len() + diff.removed_nodes().len() + diff.modified_nodes().len();
        let seed_edge_changes = diff.added_edges().len() + diff.removed_edges().len() + diff.modified_edges().len();
        let mut st = AnalysisState {
            affected: Vec::new(),
            queue: Vec::new(),
            head: 0,
            visited_previous: Vec::new(),
            visited_current: Vec::new(),
        };
        assert(st@ =~= empty_analysis());
        let max = options.max_depth();
        let mut i: usize = 0;
        while i < seeds.len()
            invariant
                i <= seeds@.len(),
                ws == seed_views(seeds@),
                g0 == previous@,
                g1 == current@,
                max == o.0,
                st.head <= st.queue@.len(),
                st@ == add_seeds(g0, g1, empty_analysis(), ws.take(i as int)),
                depths_within(st@, max),
            decreases seeds@.len() - i,
        {
            let ghost s1 = st@;
            let ghost w = ws[i as int];
            assert(w == seeds@[i as int]@);
            assert(ws.take(i + 1).drop_last() =~= ws.take(i as int));
            assert(ws.take(i + 1).last() == w);
            add_seed_work(&mut st, &previous, &current, &seeds[i]);
            proof {
                lemma_add_affected_within(g0, g1, s1.0, w.0, w.1, w.3, 0, w.4, max);
                if w.5 {
                    if w.2 == ImpactSnapshot::Previous {
                        if visit_get(s1.2, w.0) is None {
                            lemma_visit_set_within(s1.2, w.0, 0, max);
                        }
                    } else {
                        if visit_get(s1.3, w.0) is None {
                            lemma_visit_set_within(s1.3, w.0, 0, max);
                        }
                    }
                    assert forall|k: int| 0 <= k < st@.1.len() implies (#[trigger] st@.1[k]).2 <= max by {
                        if k < s1.1.len() {
                            assert(st@.1[k] == s1.1[k]);
                        }
                    }
                }
            }
            i = i + 1;
        }
        assert(ws.take(i as int) =~= ws);
        let ghost seeded = st@;
        propagate(&mut st, &previous, &current, options);
        let ghost fin = st@;
        let nodes = sort_affected(st.affected);
        proof {
            let n = choose|n: nat|
                #![trigger impact_run(g0, g1, o, seeded, n)]
                fin == impact_run(g0, g1, o, seeded, n);
            assert(impact_run(g0, g1, o, add_seeds(g0, g1, empty_analysis(), ws), n).1.len() == 0);
            let keyed = fin.0.map_values(|x: AffectedNodeView| ((x.0, Seq::<char>::empty()), x));
            crate::ordered::lemma_sorted_unique_ordered(keyed);
            let u = crate::ordered::sorted_unique(keyed);
            let out = affected_views(nodes@);
            assert(out == crate::ordered::values_of(u));
            assert forall|k: int| 0 <= k < out.len() implies (#[trigger] out[k]).4 <= max by {
                assert(out[k] == u[k].1);
                let j = choose|j: int| 0 <= j < keyed.len() && keyed[j] == u[k];
                assert(keyed[j].1 == fin.0[j]);
            }
            assert forall|a: int, b: int| 0 <= a < b < out.len() implies crate::text::lex_lt(
                (#[trigger] out[a]).0,
                (#[trigger] out[b]).0,
            ) by {
                assert(out[a] == u[a].1);
                assert(out[b] == u[b].1);
                let ja = choose|j: int| 0 <= j < keyed.len() && keyed[j] == u[a];
                let jb = choose|j: int| 0 <= j < keyed.len() && keyed[j] == u[b];
                assert(keyed[ja].1 == fin.0[ja]);
                assert(keyed[jb].1 == fin.0[jb]);
                assert(crate::ordered::entry_order()(u[a], u[b]));
            }
        }
        Ok(SemanticImpactResult::new(nodes, seed_node_changes, seed_edge_changes, max))
    }
}

proof fn lemma_select_contains_edges(e: Seq<EdgeView>)
    ensures
        forall|x: EdgeView|
            #[trigger] select_edges(e, None, None, Some(EdgeKind::Contains)).contains(x) <==> (e.contains(x)
                && x.kind == EdgeKind::Contains),
    decreases e.len(),
{
    if e.len() > 0 {
        let prev = e.drop_last();
        lemma_select_contains_edges(prev);
        let r = select_edges(e, None, None, Some(EdgeKind::Contains));
        let rest = select_edges(prev, None, None, Some(EdgeKind::Contains));
        assert forall|x: EdgeView| #[trigger] r.contains(x) <==> (e.contains(x) && x.kind == EdgeKind::Contains) by {
            if e.contains(x) && x.kind == EdgeKind::Contains {
                let i = choose|i: int| 0 <= i < e.len() && e[i] == x;
                if i < e.len() - 1 {
                    assert(prev[i] == x);
                    assert(prev.contains(x));
                    assert(rest.contains(x));
                    let k = choose|k: int| 0 <= k < rest.len() && rest[k] == x;
                    assert(r[k] == x);
                } else {
                    assert(r[r.len() - 1] == x);
                }
            }
            if r.contains(x) {
                let i = choose|i: int| 0 <= i < r.len() && r[i] == x;
                if i < rest.len() {
                    assert(rest[i] == x);
                    assert(rest.contains(x));
                    let j = choose|j: int| 0 <= j < prev.len() && prev[j] == x;
                    assert(e[j] == x);
                } else {
                    assert(e[e.len() - 1] == x);
                }
            }
        }
    }
}

/// The direction that an ownership step across a containment edge takes.
pub open spec fn ownership_direction(to_owner: bool) -> ImpactPropagationDirection {
    if to_owner {
        ImpactPropagationDirection::ChildToOwner
    } else {
        ImpactPropagationDirection::OwnerToChild
    }
}

proof fn lemma_containment_steps_members(nodes: Seq<NodeView>, e: Seq<EdgeView>, to_owner: bool, snapshot: ImpactSnapshot)
    ensures
        forall|x: EdgeView|
            #![trigger e.contains(x)]
            e.contains(x) && lookup(nodes, if to_owner { x.source } else { x.target }) is Some
                ==> containment_steps(nodes, e, to_owner, snapshot).contains(
                (
                    lookup(nodes, if to_owner { x.source } else { x.target })->0.id,
                    Some(lookup(nodes, if to_owner { x.source } else { x.target })->0.kind),
                    edge_identity_text(x.source, x.target, x.kind),
                    x.kind,
                    snapshot,
                    ImpactReasonKind::OwnershipPropagation,
                    ownership_direction(to_owner),
                ),
            ),
        forall|k: int|
            0 <= k < containment_steps(nodes, e, to_owner, snapshot).len() ==> {
                let st = #[trigger] containment_steps(nodes, e, to_owner, snapshot)[k];
                &&& st.5 == ImpactReasonKind::OwnershipPropagation
                &&& st.6 == ownership_direction(to_owner)
                &&& exists|i: int| 0 <= i < e.len() && e[i].kind == st.3
            },
    decreases e.len(),
{
    if e.len() > 0 {
        let prev = e.drop_last();
        lemma_containment_steps_members(nodes, prev, to_owner, snapshot);
        let r = containment_steps(nodes, e, to_owner, snapshot);
        let rest = containment_steps(nodes, prev, to_owner, snapshot);
        assert forall|x: EdgeView|
            #![trigger e.contains(x)]
            e.contains(x) && lookup(nodes, if to_owner { x.source } else { x.target }) is Some implies r.contains(
                (
                    lookup(nodes, if to_owner { x.source } else { x.target })->0.id,
                    Some(lookup(nodes, if to_owner { x.source } else { x.target })->0.kind),
                    edge_identity_text(x.source, x.target, x.kind),
                    x.kind,
                    snapshot,
                    ImpactReasonKind::OwnershipPropagation,
                    ownership_direction(to_owner),
                ),
            ) by {
            let n = lookup(nodes, if to_owner { x.source } else { x.target })->0;
            let st = (
                n.id,
                Some(n.kind),
                edge_identity_text(x.source, x.target, x.kind),
                x.kind,
                snapshot,
                ImpactReasonKind::OwnershipPropagation,
                ownership_direction(to_owner),
            );
            let i = choose|i: int| 0 <= i < e.len() && e[i] == x;
            if i < e.len() - 1 {
                assert(prev[i] == x);
                assert(prev.contains(x));
                assert(rest.contains(st));
                let k = choose|k: int| 0 <= k < rest.len() && rest[k] == st;
                assert(r[k] == st);
            } else {
                assert(r[r.len() - 1] == st);
            }
        }
        assert forall|k: int| 0 <= k < r.len() implies {
            let st = #[trigger] r[k];
            &&& st.5 == ImpactReasonKind::OwnershipPropagation
            &&& st.6 == ownership_direction(to_owner)
            &&& exists|i: int| 0 <= i < e.len() && e[i].kind == st.3
        } by {
            if k < rest.len() {
                assert(r[k] == rest[k]);
                let i = choose|i: int| 0 <= i < prev.len() && prev[i].kind == rest[k].3;
                assert(e[i] == prev[i]);
            } else {
                assert(e[e.len() - 1].kind == r[k].3);
            }
        }
    }
}

/// What each ownership mode propagates from a queued node. Disabled
/// propagates nothing. Child-to-owner takes a step to the owner across each
/// containment edge that enters the node, and owner-to-child one to the child
/// across each containment edge that leaves it; every step of either is an
/// ownership step across a containment edge in that mode's direction.
/// Bidirectional takes exactly the child-to-owner steps and then the
/// owner-to-child steps.
pub proof fn law_ownership_modes(g: GraphView, item: ItemView)
    ensures
        ownership_steps(g, item, OwnershipImpactMode::Disabled) == Seq::<StepView>::empty(),
        ownership_steps(g, item, OwnershipImpactMode::Bidirectional) == ownership_steps(
            g,
            item,
            OwnershipImpactMode::ChildToOwner,
        ) + ownership_steps(g, item, OwnershipImpactMode::OwnerToChild),
        forall|x: EdgeView|
            #![trigger edges_at(g, item.0, false).contains(x)]
            edges_at(g, item.0, false).contains(x) && x.kind == EdgeKind::Contains && lookup(g.nodes, x.source) is Some
                ==> ownership_steps(g, item, OwnershipImpactMode::ChildToOwner).contains(
                (
                    lookup(g.nodes, x.source)->0.id,
                    Some(lookup(g.nodes, x.source)->0.kind),
                    edge_identity_text(x.source, x.target, x.kind),
                    EdgeKind::Contains,
                    item.1,
                    ImpactReasonKind::OwnershipPropagation,
                    ImpactPropagationDirection::ChildToOwner,
                ),
            ),
        forall|x: EdgeView|
            #![trigger edges_at(g, item.0, true).contains(x)]
            edges_at(g, item.0, true).contains(x) && x.kind == EdgeKind::Contains && lookup(g.nodes, x.target) is Some
                ==> ownership_steps(g, item, OwnershipImpactMode::OwnerToChild).contains(
                (
                    lookup(g.nodes, x.target)->0.id,
                    Some(lookup(g.nodes, x.target)->0.kind),
                    edge_identity_text(x.source, x.target, x.kind),
                    EdgeKind::Contains,
                    item.1,
                    ImpactReasonKind::OwnershipPropagation,
                    ImpactPropagationDirection::OwnerToChild,
                ),
            ),
        forall|k: int|
            0 <= k < ownership_steps(g, item, OwnershipImpactMode::ChildToOwner).len() ==> {
                let st = #[trigger] ownership_steps(g, item, OwnershipImpactMode::ChildToOwner)[k];
                st.3 == EdgeKind::Contains && st.5 == ImpactReasonKind::OwnershipPropagation && st.6
                    == ImpactPropagationDirection::ChildToOwner
            },
        forall|k: int|
            0 <= k < ownership_steps(g, item, OwnershipImpactMode::OwnerToChild).len() ==> {
                let st = #[trigger] ownership_steps(g, item, OwnershipImpactMode::OwnerToChild)[k];
                st.3 == EdgeKind::Contains && st.5 == ImpactReasonKind::OwnershipPropagation && st.6
                    == ImpactPropagationDirection::OwnerToChild
            },
{
    let up_edges = select_edges(edges_at(g, item.0, false), None, None, Some(EdgeKind::Contains));
    let down_edges = select_edges(edges_at(g, item.0, true), None, None, Some(EdgeKind::Contains));
    lemma_select_contains_edges(edges_at(g, item.0, false));
    lemma_select_contains_edges(edges_at(g, item.0, true));
    lemma_containment_steps_members(g.nodes, up_edges, true, item.1);
    lemma_containment_steps_members(g.nodes, down_edges, false, item.1);
    let up = containment_steps(g.nodes, up_edges, true, item.1);
    let down = containment_steps(g.nodes, down_edges, false, item.1);
    assert(ownership_steps(g, item, OwnershipImpactMode::Disabled) =~= Seq::<StepView>::empty());
    assert(ownership_steps(g, item, OwnershipImpactMode::ChildToOwner) =~= up);
    assert(ownership_steps(g, item, OwnershipImpactMode::OwnerToChild) =~= down);
    assert(ownership_steps(g, item, OwnershipImpactMode::Bidirectional) == up + down);
    assert forall|x: EdgeView|
        #![trigger edges_at(g, item.0, false).contains(x)]
        edges_at(g, item.0, false).contains(x) && x.kind == EdgeKind::Contains && lookup(g.nodes, x.source) is Some
            implies up.contains(
            (
                lookup(g.nodes, x.source)->0.id,
                Some(lookup(g.nodes, x.source)->0.kind),
                edge_identity_text(x.source, x.target, x.kind),
                EdgeKind::Contains,
                item.1,
                ImpactReasonKind::OwnershipPropagation,
                ImpactPropagationDirection::ChildToOwner,
            ),
        ) by {
        assert(up_edges.contains(x));
    }
    assert forall|x: EdgeView|
        #![trigger edges_at(g, item.0, true).contains(x)]
        edges_at(g, item.0, true).contains(x) && x.kind == EdgeKind::Contains && lookup(g.nodes, x.target) is Some
            implies down.contains(
            (
                lookup(g.nodes, x.target)->0.id,
                Some(lookup(g.nodes, x.target)->0.kind),
                edge_identity_text(x.source, x.target, x.kind),
                EdgeKind::Contains,
                item.1,
                ImpactReasonKind::OwnershipPropagation,
                ImpactPropagationDirection::OwnerToChild,
            ),
        ) by {
        assert(down_edges.contains(x));
    }
    assert forall|k: int| 0 <= k < up.len() implies {
        let st = #[trigger] up[k];
        st.3 == EdgeKind::Contains && st.5 == ImpactReasonKind::OwnershipPropagation && st.6
            == ImpactPropagationDirection::ChildToOwner
    } by {
        let i = choose|i: int| 0 <= i < up_edges.len() && up_edges[i].kind == up[k].3;
        assert(up_edges.contains(up_edges[i]));
    }
    assert forall|k: int| 0 <= k < down.len() implies {
        let st = #[trigger] down[k];
        st.3 == EdgeKind::Contains && st.5 == ImpactReasonKind::OwnershipPropagation && st.6
            == ImpactPropagationDirection::OwnerToChild
    } by {
        let i = choose|i: int| 0 <= i < down_edges.len() && down_edges[i].kind == down[k].3;
        assert(down_edges.contains(down_edges[i]));
    }
}

} // verus!
