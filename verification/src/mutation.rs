use vstd::prelude::*;
use crate::id::{Id, NodeId};

verus! {

/// One change that the backend has to make to the live tree.
///
/// The library decides which changes are needed and on which nodes. How a
/// change is carried out is the backend's business.
#[derive(Clone, Debug, PartialEq, Eq)]
pub enum Mutation {
    /// Make a new element `node` with the tag `name` in `namespace`, with no
    /// attributes, no children and no parent.
    CreateElement { node: NodeId, namespace: String, name: String },
    /// Make a new text node `node` that reads `content`.
    CreateText { node: NodeId, content: String },
    /// Let the text node `node` read `content`.
    SetText { node: NodeId, content: String },
    /// Give the attribute `name` of `node` the value `value`.
    SetAttribute { node: NodeId, name: String, value: String },
    /// Take the attribute `name` off `node`.
    RemoveAttribute { node: NodeId, name: String },
    /// Mark `node` with the identity of the view that made it, for inspection.
    SetDebugId { node: NodeId, id: Id },
    /// Make `child` the last child of `parent`, taking it from the parent it
    /// has, if any.
    AppendChild { parent: NodeId, child: NodeId },
    /// Take every child off `node`.
    ClearChildren { node: NodeId },
    /// Take `node` off its parent. A backend that finds no parent must stop.
    RemoveFromParent { node: NodeId },
    /// From now on report what is named `event` and happens on `node` as a
    /// message along `id_path`, in place of what was reported along that path
    /// before.
    Listen { node: NodeId, event: String, id_path: Vec<Id> },
}

/// A [`Mutation`] with its strings as sequences of characters.
pub enum MutationView {
    CreateElement { node: NodeId, namespace: Seq<char>, name: Seq<char> },
    CreateText { node: NodeId, content: Seq<char> },
    SetText { node: NodeId, content: Seq<char> },
    SetAttribute { node: NodeId, name: Seq<char>, value: Seq<char> },
    RemoveAttribute { node: NodeId, name: Seq<char> },
    SetDebugId { node: NodeId, id: Id },
    AppendChild { parent: NodeId, child: NodeId },
    ClearChildren { node: NodeId },
    RemoveFromParent { node: NodeId },
    Listen { node: NodeId, event: Seq<char>, id_path: Seq<Id> },
}

impl View for Mutation {
    type V = MutationView;

    open spec fn view(&self) -> MutationView {
        match *self {
            Mutation::CreateElement { node, namespace, name } => MutationView::CreateElement {
                node,
                namespace: namespace@,
                name: name@,
            },
            Mutation::CreateText { node, content } => MutationView::CreateText {
                node,
                content: content@,
            },
            Mutation::SetText { node, content } => MutationView::SetText {
                node,
                content: content@,
            },
            Mutation::SetAttribute { node, name, value } => MutationView::SetAttribute {
                node,
                name: name@,
                value: value@,
            },
            Mutation::RemoveAttribute { node, name } => MutationView::RemoveAttribute {
                node,
                name: name@,
            },
            Mutation::SetDebugId { node, id } => MutationView::SetDebugId { node, id },
            Mutation::AppendChild { parent, child } => MutationView::AppendChild {
                parent,
                child,
            },
            Mutation::ClearChildren { node } => MutationView::ClearChildren { node },
            Mutation::RemoveFromParent { node } => MutationView::RemoveFromParent { node },
            Mutation::Listen { node, event, id_path } => MutationView::Listen {
                node,
                event: event@,
                id_path: id_path@,
            },
        }
    }
}

/// The views of a list of mutations, in order.
pub open spec fn log_view(log: Seq<Mutation>) -> Seq<MutationView> {
    log.map_values(|m: Mutation| m@)
}

/// `AppendChild` for each of `children` in order, all under `parent`.
pub open spec fn append_all(parent: NodeId, children: Seq<crate::id::Pod>) -> Seq<MutationView> {
    children.map_values(
        |child: crate::id::Pod| MutationView::AppendChild { parent, child: child.node },
    )
}

} // verus!
