use vstd::prelude::*;

verus! {

/// The identity of one position in a view tree.
///
/// Identities are minted by a [`Cx`](crate::context::Cx) from a counter that
/// only grows, so two identities minted by one context are never equal.
#[derive(Clone, Copy, Debug, PartialEq, Eq, Hash, Structural)]
pub struct Id(pub u64);

impl Id {
    /// The number behind this identity.
    pub fn to_raw(self) -> (raw: u64)
        ensures
            raw == self.0,
    {
        self.0
    }
}

/// The handle of one live node of the backend.
#[derive(Clone, Copy, Debug, PartialEq, Eq, Hash, Structural)]
pub struct NodeId(pub u64);

/// A live node as its parent holds it: the handle by which the backend knows it.
#[derive(Clone, Copy, Debug, PartialEq, Eq, Hash, Structural)]
pub struct Pod {
    pub node: NodeId,
}

impl Pod {
    /// The live node behind the handle `node`.
    pub fn new(node: NodeId) -> (pod: Pod)
        ensures
            pod.node == node,
    {
        Pod { node }
    }
}

} // verus!
