//! Node enrichment: every node joined with the pods that are placed on it
//! and with its own usage sample.
//!
//! The three lists are fetched independently. Where the pods could not be
//! listed the join runs on an empty list, and every node gets no pods; where
//! the usage samples could not be listed, no node gets one.

use crate::text::text_of;
use vstd::prelude::*;

verus! {

/// What the join finds for one node, as positions in the lists it was given.
#[derive(Clone, Debug, PartialEq, Eq)]
pub struct NodeLoad {
    /// The pods placed on the node, in the order of the pod list.
    pub pods: Vec<usize>,
    /// The node's usage sample: the first that carries the node's name.
    pub metrics: Option<usize>,
}

/// The positions of the pods that are placed on a node, in ascending order.
pub open spec fn pods_on(placements: Seq<Option<String>>, node: Seq<char>) -> Seq<usize>
    decreases placements.len(),
{
    if placements.len() == 0 {
        Seq::empty()
    } else {
        let before = pods_on(placements.drop_last(), node);
        if text_of(placements.last()) == Some(node) {
            before.push((placements.len() - 1) as usize)
        } else {
            before
        }
    }
}

/// Whether `found` is the first position at which a name occurs, or `None`
/// where it occurs nowhere.
pub open spec fn is_first_position(names: Seq<String>, name: Seq<char>, found: Option<usize>) -> bool {
    match found {
        Some(i) => i < names.len() && names[i as int]@ == name && forall|k: int|
            0 <= k < i ==> names[k]@ != name,
        None => forall|k: int| 0 <= k < names.len() ==> names[k]@ != name,
    }
}

/// Finds the first position at which a name occurs.
pub fn position_of(names: &Vec<String>, name: &String) -> (found: Option<usize>)
    ensures
        is_first_position(names@, name@, found),
{
    let mut i: usize = 0;
    while i < names.len()
        invariant
            i <= names.len(),
            forall|k: int| 0 <= k < i ==> names[k]@ != name@,
        decreases names.len() - i,
    {
        if names[i] == *name {
            return Some(i);
        }
        i += 1;
    }
    None
}

/// Collects the positions of the pods that are placed on a node.
pub fn pods_placed_on(placements: &Vec<Option<String>>, node: &String) -> (pods: Vec<usize>)
    ensures
        pods@ == pods_on(placements@, node@),
{
    let mut pods: Vec<usize> = Vec::new();
    let mut i: usize = 0;
    while i < placements.len()
        invariant
            i <= placements.len(),
            pods@ == pods_on(placements@.take(i as int), node@),
        decreases placements.len() - i,
    {
        proof {
            assert(placements@.take(i as int + 1).drop_last() =~= placements@.take(i as int));
        }
        let here = match &placements[i] {
            Some(n) => *n == *node,
            None => false,
        };
        if here {
            pods.push(i);
        }
        i += 1;
    }
    proof {
        assert(placements@.take(placements.len() as int) =~= placements@);
    }
    pods
}

/// Joins the nodes with the pods and the usage samples.
///
/// `nodes` holds the name of each node, `placements` the node that each pod
/// of the cluster is placed on, where it is placed, and `sampled` the node
/// name of each usage sample. The result has one entry per node, in the order
/// of the nodes.
pub fn enrich(nodes: &Vec<String>, placements: &Vec<Option<String>>, sampled: &Vec<String>) -> (loads:
    Vec<NodeLoad>)
    ensures
        loads.len() == nodes.len(),
        forall|i: int|
            0 <= i < nodes.len() ==> {
                &&& (#[trigger] loads[i]).pods@ == pods_on(placements@, nodes[i]@)
                &&& is_first_position(sampled@, nodes[i]@, loads[i].metrics)
            },
{
    let mut loads: Vec<NodeLoad> = Vec::new();
    let mut i: usize = 0;
    while i < nodes.len()
        invariant
            i <= nodes.len(),
            loads.len() == i,
            forall|k: int|
                0 <= k < i ==> {
                    &&& (#[trigger] loads[k]).pods@ == pods_on(placements@, nodes[k]@)
                    &&& is_first_position(sampled@, nodes[k]@, loads[k].metrics)
                },
        decreases nodes.len() - i,
    {
        let load = NodeLoad {
            pods: pods_placed_on(placements, &nodes[i]),
            metrics: position_of(sampled, &nodes[i]),
        };
        loads.push(load);
        i += 1;
    }
    loads
}

/// Where no pod was listed, no node has pods.
pub proof fn lemma_no_pods_listed(node: Seq<char>)
    ensures
        pods_on(Seq::empty(), node).len() == 0,
{
}

} // verus!
