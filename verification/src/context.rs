use vstd::prelude::*;
use crate::id::{Id, NodeId, Pod};
use crate::mutation::{log_view, Mutation, MutationView};

verus! {

/// The session in which views are built and rebuilt.
///
/// It mints identities and node handles, keeps the path of identities from the
/// root to the view at work, and collects the mutations that the backend has
/// yet to apply.
pub struct Cx {
    id_path: Vec<Id>,
    next_id: u64,
    next_node: u64,
    debug_ids: bool,
    log: Vec<Mutation>,
}

/// A [`Cx`] as contracts see it.
pub struct CxView {
    /// The identities from the root down to the view at work.
    pub id_path: Seq<Id>,
    /// The number of the identity that is minted next.
    pub next_id: nat,
    /// The number of the node handle that is minted next.
    pub next_node: nat,
    /// Whether built nodes are marked with the identity of their view.
    pub debug_ids: bool,
    /// The mutations recorded and not yet taken, oldest first.
    pub log: Seq<MutationView>,
}

impl CxView {
    /// The session with `m` recorded last.
    pub open spec fn emit(self, m: MutationView) -> CxView {
        CxView { log: self.log.push(m), ..self }
    }

    /// The session with all of `ms` recorded last, in order.
    pub open spec fn emit_all(self, ms: Seq<MutationView>) -> CxView {
        CxView { log: self.log + ms, ..self }
    }

    /// The identity that is minted next.
    pub open spec fn fresh_id(self) -> Id {
        Id(self.next_id as u64)
    }

    /// The node handle that is minted next.
    pub open spec fn fresh_node(self) -> NodeId {
        NodeId(self.next_node as u64)
    }

    /// The session after minting an identity and stepping down to it.
    pub open spec fn push_new_id(self) -> CxView {
        CxView { id_path: self.id_path.push(self.fresh_id()), next_id: self.next_id + 1, ..self }
    }

    /// The session after stepping down to `id`.
    pub open spec fn push_id(self, id: Id) -> CxView {
        CxView { id_path: self.id_path.push(id), ..self }
    }

    /// The session after stepping up by one identity.
    pub open spec fn pop_id(self) -> CxView {
        CxView { id_path: self.id_path.drop_last(), ..self }
    }

    /// The session after minting a node handle.
    pub open spec fn take_node(self) -> CxView {
        CxView { next_node: self.next_node + 1, ..self }
    }

    /// The session after making the element `name` in `namespace`.
    pub open spec fn build_element(self, namespace: Seq<char>, name: Seq<char>) -> CxView {
        self.take_node().emit(
            MutationView::CreateElement { node: self.fresh_node(), namespace, name },
        )
    }

    /// The session after making a text node that reads `content`.
    pub open spec fn build_text(self, content: Seq<char>) -> CxView {
        self.take_node().emit(MutationView::CreateText { node: self.fresh_node(), content })
    }

    /// `count` more identities and `count` more node handles can be minted.
    pub open spec fn has_room(self, count: nat) -> bool {
        self.next_id + count <= u64::MAX && self.next_node + count <= u64::MAX
    }

    /// Every identity on the path was minted by this session: it is below
    /// the identity that is minted next.
    pub open spec fn path_minted(self) -> bool {
        forall|i: int| 0 <= i < self.id_path.len() ==> (#[trigger] self.id_path[i]).0 < self.next_id
    }

    /// A path of minted identities stays one when the session steps down to
    /// a new identity, steps down to one that was minted, steps up, mints a
    /// node handle or records a mutation.
    pub proof fn lemma_path_minted(self, id: Id, m: MutationView, ms: Seq<MutationView>)
        requires
            self.path_minted(),
        ensures
            self.push_new_id().path_minted(),
            id.0 < self.next_id ==> self.push_id(id).path_minted(),
            self.id_path.len() > 0 ==> self.pop_id().path_minted(),
            self.take_node().path_minted(),
            self.emit(m).path_minted(),
            self.emit_all(ms).path_minted(),
    {
        let down = self.push_new_id();
        assert forall|i: int| 0 <= i < down.id_path.len() implies (#[trigger] down.id_path[i]).0
            < down.next_id by {
            if i < self.id_path.len() {
                assert(down.id_path[i] == self.id_path[i]);
            }
        }
        if id.0 < self.next_id {
            let to = self.push_id(id);
            assert forall|i: int| 0 <= i < to.id_path.len() implies (#[trigger] to.id_path[i]).0
                < to.next_id by {
                if i < self.id_path.len() {
                    assert(to.id_path[i] == self.id_path[i]);
                }
            }
        }
        if self.id_path.len() > 0 {
            let up = self.pop_id();
            assert forall|i: int| 0 <= i < up.id_path.len() implies (#[trigger] up.id_path[i]).0
                < up.next_id by {
                assert(up.id_path[i] == self.id_path[i]);
            }
        }
    }

    /// An identity that is not below the counter is no segment of a path of
    /// minted identities.
    pub proof fn lemma_fresh_is_off_the_path(self, id: Id)
        requires
            self.path_minted(),
            self.next_id <= id.0,
        ensures
            !self.id_path.contains(id),
    {
    }
}

impl View for Cx {
    type V = CxView;

    closed spec fn view(&self) -> CxView {
        CxView {
            id_path: self.id_path@,
            next_id: self.next_id as nat,
            next_node: self.next_node as nat,
            debug_ids: self.debug_ids,
            log: log_view(self.log@),
        }
    }
}

impl Cx {
    /// A session at the root, with nothing minted and nothing recorded.
    pub fn new() -> (cx: Cx)
        ensures
            cx@ == (CxView {
                id_path: Seq::empty(),
                next_id: 0,
                next_node: 0,
                debug_ids: false,
                log: Seq::empty(),
            }),
            cx@.path_minted(),
    {
        let cx = Cx {
            id_path: Vec::new(),
            next_id: 0,
            next_node: 0,
            debug_ids: false,
            log: Vec::new(),
        };
        assert(cx@.log =~= Seq::empty());
        cx
    }

    /// Says whether nodes built from now on are marked with the identity of
    /// their view.
    pub fn set_debug_ids(&mut self, on: bool)
        ensures
            final(self)@ == (CxView { debug_ids: on, ..old(self)@ }),
    {
        self.debug_ids = on;
    }

    /// Whether built nodes are marked with the identity of their view.
    pub fn debug_ids(&self) -> (on: bool)
        ensures
            on == self@.debug_ids,
    {
        self.debug_ids
    }

    /// The identities from the root down to the view at work.
    pub fn id_path(&self) -> (path: &Vec<Id>)
        ensures
            path@ == self@.id_path,
    {
        &self.id_path
    }

    /// How many identities, and how many node handles, can still be minted.
    pub fn room(&self) -> (count: u64)
        ensures
            self@.has_room(count as nat),
            !self@.has_room((count + 1) as nat),
    {
        let ids: u64 = u64::MAX - self.next_id;
        let nodes: u64 = u64::MAX - self.next_node;
        if ids < nodes {
            ids
        } else {
            nodes
        }
    }

    /// Whether `count` more identities and `count` more node handles can be
    /// minted.
    pub fn has_room(&self, count: u64) -> (enough: bool)
        ensures
            enough == self@.has_room(count as nat),
    {
        count <= self.room()
    }

    /// Mints an identity and steps down to it.
    pub fn push_new_id(&mut self) -> (id: Id)
        requires
            old(self)@.next_id < u64::MAX,
        ensures
            id == old(self)@.fresh_id(),
            final(self)@ == old(self)@.push_new_id(),
            old(self)@.path_minted() ==> !old(self)@.id_path.contains(id)
                && final(self)@.path_minted(),
    {
        proof {
            if self@.path_minted() {
                self@.lemma_fresh_is_off_the_path(Id(self.next_id));
                self@.lemma_path_minted(Id(0), MutationView::ClearChildren { node: NodeId(0) }, Seq::empty());
            }
        }
        let id = Id(self.next_id);
        self.next_id = self.next_id + 1;
        self.id_path.push(id);
        id
    }

    /// Steps down to `id`.
    pub fn push_id(&mut self, id: Id)
        ensures
            final(self)@ == old(self)@.push_id(id),
            old(self)@.path_minted() && id.0 < old(self)@.next_id ==> final(self)@.path_minted(),
    {
        proof {
            if self@.path_minted() {
                self@.lemma_path_minted(id, MutationView::ClearChildren { node: NodeId(0) }, Seq::empty());
            }
        }
        self.id_path.push(id);
    }

    /// Steps up by one identity. At the root there is nowhere to step up to,
    /// and the path stays empty.
    pub fn pop_id(&mut self)
        ensures
            old(self)@.id_path.len() > 0 ==> final(self)@ == old(self)@.pop_id(),
            old(self)@.id_path.len() == 0 ==> final(self)@ == old(self)@,
            old(self)@.path_minted() ==> final(self)@.path_minted(),
    {
        proof {
            if self@.path_minted() {
                self@.lemma_path_minted(Id(0), MutationView::ClearChildren { node: NodeId(0) }, Seq::empty());
            }
        }
        let _ = self.id_path.pop();
        assert(self.id_path@.len() > 0 ==> self.id_path@.drop_last() == self.id_path@.subrange(
            0,
            self.id_path@.len() - 1,
        ));
    }

    /// Records `m` as the last mutation.
    pub fn emit(&mut self, m: Mutation)
        ensures
            final(self)@ == old(self)@.emit(m@),
    {
        self.log.push(m);
        assert(log_view(self.log@) =~= log_view(old(self).log@).push(m@));
    }

    /// Makes a new element and the empty attribute table that goes with it.
    pub fn build_element(&mut self, namespace: &str, name: &str) -> (pod: Pod)
        requires
            old(self)@.next_node < u64::MAX,
        ensures
            pod.node == old(self)@.fresh_node(),
            final(self)@ == old(self)@.build_element(namespace@, name@),
    {
        let node = NodeId(self.next_node);
        self.next_node = self.next_node + 1;
        self.emit(
            Mutation::CreateElement {
                node,
                namespace: namespace.to_owned(),
                name: name.to_owned(),
            },
        );
        Pod::new(node)
    }

    /// Makes a new text node that reads `content`.
    pub fn build_text(&mut self, content: &str) -> (pod: Pod)
        requires
            old(self)@.next_node < u64::MAX,
        ensures
            pod.node == old(self)@.fresh_node(),
            final(self)@ == old(self)@.build_text(content@),
    {
        let node = NodeId(self.next_node);
        self.next_node = self.next_node + 1;
        self.emit(Mutation::CreateText { node, content: content.to_owned() });
        Pod::new(node)
    }

    /// Records `AppendChild` for each of `children` in order, all under
    /// `parent`.
    pub fn append_children(&mut self, parent: NodeId, children: &Vec<Pod>)
        ensures
            final(self)@ == old(self)@.emit_all(crate::mutation::append_all(parent, children@)),
    {
        let mut i: usize = 0;
        while i < children.len()
            invariant
                i <= children.len(),
                self@ == old(self)@.emit_all(
                    crate::mutation::append_all(parent, children@.take(i as int)),
                ),
            decreases children.len() - i,
        {
            self.emit(Mutation::AppendChild { parent, child: children[i].node });
            assert(crate::mutation::append_all(parent, children@.take(i + 1))
                =~= crate::mutation::append_all(parent, children@.take(i as int)).push(
                MutationView::AppendChild { parent, child: children@[i as int].node },
            ));
            i = i + 1;
        }
        assert(children@.take(children.len() as int) =~= children@);
    }

    /// Records that what is named `event` and happens on `node` is to be
    /// reported along the path that leads to the view at work.
    pub fn listen(&mut self, node: NodeId, event: &str)
        ensures
            final(self)@ == old(self)@.emit(
                MutationView::Listen { node, event: event@, id_path: old(self)@.id_path },
            ),
    {
        let mut id_path: Vec<Id> = Vec::new();
        let mut i: usize = 0;
        while i < self.id_path.len()
            invariant
                i <= self.id_path@.len(),
                *self == *old(self),
                id_path@ == self.id_path@.take(i as int),
            decreases self.id_path@.len() - i,
        {
            id_path.push(self.id_path[i]);
            assert(id_path@ =~= self.id_path@.take(i + 1));
            i = i + 1;
        }
        assert(id_path@ =~= self.id_path@);
        self.emit(Mutation::Listen { node, event: event.to_owned(), id_path });
    }

    /// Hands over the mutations recorded so far, oldest first, and starts a
    /// new record.
    pub fn take_mutations(&mut self) -> (taken: Vec<Mutation>)
        ensures
            log_view(taken@) == old(self)@.log,
            final(self)@ == (CxView { log: Seq::empty(), ..old(self)@ }),
    {
        let mut taken: Vec<Mutation> = Vec::new();
        std::mem::swap(&mut self.log, &mut taken);
        assert(log_view(self.log@) =~= Seq::empty());
        taken
    }
}

} // verus!
