//! The graph projector: a faithful mirror of the persisted state as a
//! node/edge view, with no filtering, aggregation or deduplication.
use vstd::prelude::*;

use crate::kinds::kind_name;
use crate::store::Database;

verus! {

/// One node of the graph view: a resource's identifier, display label
/// and kind.
#[derive(Debug)]
pub struct GraphNode {
    pub id: String,
    pub label: String,
    pub node_type: String,
}

/// One edge of the graph view: a link's two endpoints.
#[derive(Debug)]
pub struct GraphEdge {
    pub source: String,
    pub target: String,
}

/// The complete graph view.
#[derive(Debug)]
pub struct GraphData {
    pub nodes: Vec<GraphNode>,
    pub edges: Vec<GraphEdge>,
}

impl Database {
    /// Projects the store onto a graph: exactly one node per stored
    /// resource, carrying its identifier, title and kind, and exactly
    /// one edge per stored link, carrying its endpoints — no loss, no
    /// duplication.
    pub fn get_graph_data(&self) -> (g: GraphData)
        ensures
            g.nodes@.len() == self.rows().len(),
            forall|i: int|
                0 <= i < g.nodes@.len() ==> {
                    let row = self.rows()[i];
                    &&& (#[trigger] g.nodes@[i]).id@ == row.id
                    &&& g.nodes@[i].label@ == row.title
                    &&& g.nodes@[i].node_type@ == kind_name(row.kind)
                },
            g.edges@.len() == self.edges().len(),
            forall|i: int|
                0 <= i < g.edges@.len() ==> (#[trigger] g.edges@[i]).source@
                    == self.edges()[i].source && g.edges@[i].target@ == self.edges()[i].target,
    {
        let n = self.resources.len();
        let mut nodes: Vec<GraphNode> = Vec::new();
        let mut i: usize = 0;
        while i < n
            invariant
                n == self.resources.len(),
                i <= n,
                nodes@.len() == i,
                forall|m: int|
                    0 <= m < i ==> {
                        let row = self.rows()[m];
                        &&& (#[trigger] nodes@[m]).id@ == row.id
                        &&& nodes@[m].label@ == row.title
                        &&& nodes@[m].node_type@ == kind_name(row.kind)
                    },
            decreases n - i,
        {
            proof {
                assert(self.rows()[i as int] == self.resources@[i as int]@);
            }
            let row = &self.resources[i];
            nodes.push(
                GraphNode {
                    id: row.id.clone(),
                    label: row.title.clone(),
                    node_type: row.kind.as_string(),
                },
            );
            i += 1;
        }
        let m = self.links.len();
        let mut edges: Vec<GraphEdge> = Vec::new();
        let mut j: usize = 0;
        while j < m
            invariant
                m == self.links.len(),
                j <= m,
                edges@.len() == j,
                forall|p: int|
                    0 <= p < j ==> (#[trigger] edges@[p]).source@ == self.edges()[p].source
                        && edges@[p].target@ == self.edges()[p].target,
            decreases m - j,
        {
            proof {
                assert(self.edges()[j as int] == self.links@[j as int]@);
            }
            let l = &self.links[j];
            edges.push(GraphEdge { source: l.source_id.clone(), target: l.target_id.clone() });
            j += 1;
        }
        GraphData { nodes, edges }
    }
}

} // verus!
