//! The tree-shaped value type carried from the data sources into the
//! merged context: a scalar string, a sequence of values, or a mapping
//! from keys to values (keys are themselves values, so that non-scalar
//! keys coming from a structured-data parser can be represented and
//! rejected where the rules ask for it).

use vstd::prelude::*;

verus! {

broadcast use vstd::std_specs::vec::group_vec_axioms, vstd::seq::group_seq_axioms;

/// A structured value: scalar text, a sequence, or an ordered mapping.
#[derive(Debug, PartialEq, Eq)]
pub enum Node {
    Scalar(String),
    Sequence(Vec<Node>),
    Mapping(Vec<(Node, Node)>),
}

/// The mathematical shape of a `Node`: every string replaced by its
/// sequence of characters.
pub enum NodeView {
    Scalar(Seq<char>),
    Sequence(Seq<NodeView>),
    Mapping(Seq<(NodeView, NodeView)>),
}

impl View for Node {
    type V = NodeView;

    open spec fn view(&self) -> NodeView
        decreases self,
    {
        match self {
            Node::Scalar(s) => NodeView::Scalar(s@),
            Node::Sequence(items) => NodeView::Sequence(view_nodes(items@)),
            Node::Mapping(entries) => NodeView::Mapping(view_node_pairs(entries@)),
        }
    }
}

/// The views of a sequence of values, element by element.
pub open spec fn view_nodes(items: Seq<Node>) -> Seq<NodeView>
    decreases items,
{
    if items.len() == 0 {
        Seq::empty()
    } else {
        view_nodes(items.drop_last()).push(items.last()@)
    }
}

/// The views of a sequence of key/value pairs, pair by pair.
pub open spec fn view_node_pairs(entries: Seq<(Node, Node)>) -> Seq<(NodeView, NodeView)>
    decreases entries,
{
    if entries.len() == 0 {
        Seq::empty()
    } else {
        view_node_pairs(entries.drop_last()).push((entries.last().0@, entries.last().1@))
    }
}

/// `view_nodes` is the element-wise view.
pub proof fn lemma_view_nodes(items: Seq<Node>)
    ensures
        view_nodes(items).len() == items.len(),
        forall|i: int| 0 <= i < items.len() ==> view_nodes(items)[i] == #[trigger] items[i]@,
    decreases items.len(),
{
    if items.len() > 0 {
        lemma_view_nodes(items.drop_last());
        assert(view_nodes(items) == view_nodes(items.drop_last()).push(items.last()@));
        assert forall|i: int| 0 <= i < items.len() implies view_nodes(items)[i] == #[trigger] items[i]@ by {
            if i < items.len() - 1 {
                assert(items.drop_last()[i] == items[i]);
            }
        }
    }
}

/// `view_node_pairs` is the pair-wise view.
pub proof fn lemma_view_node_pairs(entries: Seq<(Node, Node)>)
    ensures
        view_node_pairs(entries).len() == entries.len(),
        forall|i: int| 0 <= i < entries.len() ==> view_node_pairs(entries)[i] == (
            #[trigger] entries[i].0@,
            entries[i].1@,
        ),
    decreases entries.len(),
{
    if entries.len() > 0 {
        lemma_view_node_pairs(entries.drop_last());
        assert(view_node_pairs(entries) == view_node_pairs(entries.drop_last()).push(
            (entries.last().0@, entries.last().1@),
        ));
        assert forall|i: int| 0 <= i < entries.len() implies view_node_pairs(entries)[i] == (
            #[trigger] entries[i].0@,
            entries[i].1@,
        ) by {
            if i < entries.len() - 1 {
                assert(entries.drop_last()[i] == entries[i]);
            }
        }
    }
}

} // verus!
