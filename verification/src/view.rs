use vstd::prelude::*;
use crate::attributes::AttrSeq;
use crate::change_flags::ChangeFlags;
use crate::context::{Cx, CxView};
use crate::id::{Id, Pod};
use crate::message::{Message, MessageResult, MessageView};

verus! {

/// The state of a view or of a list of views, as contracts see it.
pub enum StateModel {
    /// Nothing is kept.
    Unit,
    /// One view in a list: the identity it was built under, and its own state.
    Slot { id: Id, inner: Box<StateModel> },
    /// An element: the state of its children, the attributes it carries, its
    /// live children in order, and what its scratch vector holds.
    Element {
        children: Box<StateModel>,
        attributes: AttrSeq,
        child_elements: Seq<Pod>,
        scratch: Seq<Pod>,
    },
    /// A list that can grow and shrink: the state of each member.
    List(Seq<StateModel>),
    /// Two lists, one after the other.
    Pair(Box<StateModel>, Box<StateModel>),
}

/// What building one view yields.
pub struct BuiltNode {
    pub id: Id,
    pub state: StateModel,
    pub pod: Pod,
    pub cx: CxView,
}

/// What rebuilding one view yields.
pub struct RebuiltNode {
    pub id: Id,
    pub state: StateModel,
    pub pod: Pod,
    pub cx: CxView,
    pub flags: ChangeFlags,
}

/// What building a list of views yields.
pub struct Built {
    pub state: StateModel,
    pub pods: Seq<Pod>,
    pub cx: CxView,
}

/// What rebuilding a list of views yields.
pub struct Rebuilt {
    pub state: StateModel,
    pub pods: Seq<Pod>,
    pub cx: CxView,
    pub flags: ChangeFlags,
}

/// What delivering a message yields.
pub struct Delivered<T, A> {
    pub result: MessageResult<A>,
    pub state: StateModel,
    pub app_state: T,
}

/// `after` is `before` moved on by one build or rebuild that mints at most
/// `size` identities and `size` node handles: the path and the debug switch
/// are as they were, the counters did not go back, and what was recorded
/// before is still recorded, in front.
pub open spec fn advanced(before: CxView, after: CxView, size: nat) -> bool {
    &&& after.id_path == before.id_path
    &&& after.debug_ids == before.debug_ids
    &&& before.next_id <= after.next_id <= before.next_id + size
    &&& before.next_node <= after.next_node <= before.next_node + size
    &&& before.log.len() <= after.log.len()
    &&& after.log.take(before.log.len() as int) == before.log
}

/// Two steps of a session, one after the other, are one step of the two
/// sizes together.
pub proof fn lemma_advanced_twice(a: CxView, b: CxView, c: CxView, first: nat, second: nat)
    requires
        advanced(a, b, first),
        advanced(b, c, second),
    ensures
        advanced(a, c, first + second),
{
    assert(c.log.take(a.log.len() as int) =~= c.log.take(b.log.len() as int).take(
        a.log.len() as int,
    ));
}

/// A path of minted identities stays one over a build or a rebuild.
pub proof fn lemma_advanced_keeps_path(before: CxView, after: CxView, size: nat)
    requires
        advanced(before, after, size),
        before.path_minted(),
    ensures
        after.path_minted(),
{
}

/// Marks the types that are views, so that no type is both a view and a list
/// of views in its own right.
pub trait ViewMarker {

}

/// A description of what should exist at one place of the live tree.
///
/// `T` is the application's state and `A` the type of the actions that
/// messages are answered with.
pub trait ViewNode<T, A>: ViewMarker {
    /// What is kept for this view from one rebuild to the next.
    type State;

    /// The state as contracts see it.
    spec fn state_model(state: &Self::State) -> StateModel;

    /// How many identities, and how many node handles, building this view
    /// mints at most.
    spec fn size(&self) -> nat;

    /// `state` is a state that building or rebuilding this view leaves.
    spec fn live(&self, state: StateModel) -> bool;

    /// The identities that `state` holds: each names one view below this one.
    spec fn ids(&self, state: StateModel) -> Set<Id>;

    /// Every identity that `state` holds was minted before the counter
    /// stood at `bound`, and none of them names two views.
    spec fn identified(&self, state: StateModel, bound: nat) -> bool;

    /// What [`build`](ViewNode::build) yields in the session `cx`.
    spec fn build_spec(&self, cx: CxView) -> BuiltNode;

    /// What [`rebuild`](ViewNode::rebuild) yields in the session `cx`, where
    /// `prev` left `id`, `state` and `pod`.
    spec fn rebuild_spec(
        &self,
        prev: &Self,
        id: Id,
        state: StateModel,
        pod: Pod,
        cx: CxView,
    ) -> RebuiltNode;

    /// What [`message`](ViewNode::message) yields.
    spec fn message_spec(
        &self,
        id_path: Seq<Id>,
        state: StateModel,
        message: MessageView,
        app_state: T,
    ) -> Delivered<T, A>;

    /// Makes a new live node for this view, and the state that goes with it,
    /// from the description alone.
    fn build(&self, cx: &mut Cx) -> (built: (Id, Self::State, Pod))
        requires
            old(cx)@.has_room(self.size()),
        ensures
            built.0 == self.build_spec(old(cx)@).id,
            Self::state_model(&built.1) == self.build_spec(old(cx)@).state,
            built.2 == self.build_spec(old(cx)@).pod,
            final(cx)@ == self.build_spec(old(cx)@).cx,
            old(cx)@.path_minted() ==> !old(cx)@.id_path.contains(built.0)
                && final(cx)@.path_minted(),
    ;

    /// Brings the live node that `prev` left in line with this view, in
    /// place, and says what kind of change that took.
    fn rebuild(
        &self,
        cx: &mut Cx,
        prev: &Self,
        id: &mut Id,
        state: &mut Self::State,
        element: &mut Pod,
    ) -> (flags: ChangeFlags)
        requires
            prev.live(Self::state_model(old(state))),
            old(cx)@.has_room(self.size()),
        ensures
            ({
                let out = self.rebuild_spec(
                    prev,
                    *old(id),
                    Self::state_model(old(state)),
                    *old(element),
                    old(cx)@,
                );
                &&& *final(id) == out.id
                &&& Self::state_model(final(state)) == out.state
                &&& *final(element) == out.pod
                &&& final(cx)@ == out.cx
                &&& flags == out.flags
                &&& old(cx)@.path_minted() ==> final(cx)@.path_minted()
            }),
    ;

    /// Delivers `message` to the view that `id_path` leads to from here. An
    /// empty path means this view.
    fn message(
        &self,
        id_path: &[Id],
        state: &mut Self::State,
        message: &Message,
        app_state: &mut T,
    ) -> (result: MessageResult<A>)
        ensures
            ({
                let out = self.message_spec(
                    id_path@,
                    Self::state_model(old(state)),
                    message@,
                    *old(app_state),
                );
                &&& result == out.result
                &&& Self::state_model(final(state)) == out.state
                &&& *final(app_state) == out.app_state
            }),
    ;

    /// What is left of `room` identities and node handles once this view is
    /// built, or nothing where the view needs more than `room`.
    fn room_after(&self, room: u64) -> (left: Option<u64>)
        ensures
            match left {
                Some(rest) => self.size() + rest == room,
                None => self.size() > room,
            },
    ;

    /// Building leaves a state of this view and moves the session on by no
    /// more than the view's size.
    proof fn lemma_build(&self, cx: CxView)
        ensures
            self.live(self.build_spec(cx).state),
            advanced(cx, self.build_spec(cx).cx, self.size()),
    ;

    /// Rebuilding leaves a state of this view and moves the session on by no
    /// more than the view's size.
    proof fn lemma_rebuild(&self, prev: &Self, id: Id, state: StateModel, pod: Pod, cx: CxView)
        requires
            prev.live(state),
        ensures
            self.live(self.rebuild_spec(prev, id, state, pod, cx).state),
            advanced(cx, self.rebuild_spec(prev, id, state, pod, cx).cx, self.size()),
    ;

    /// What was minted before a counter value was minted before any later
    /// one.
    proof fn lemma_identified_grows(&self, state: StateModel, bound: nat, later: nat)
        requires
            self.identified(state, bound),
            bound <= later,
        ensures
            self.identified(state, later),
    ;

    /// The identities that a state holds were minted before the bound that
    /// the state keeps to.
    proof fn lemma_ids_bounded(&self, state: StateModel, bound: nat)
        requires
            self.identified(state, bound),
        ensures
            forall|id: Id| #[trigger] self.ids(state).contains(id) ==> id.0 < bound,
    ;

    /// Building mints the view's identity, and those in its state, in the
    /// course of the build, and the view's identity is none of those in its
    /// state.
    proof fn lemma_build_identified(&self, cx: CxView)
        requires
            cx.has_room(self.size()),
        ensures
            cx.next_id <= self.build_spec(cx).id.0 < self.build_spec(cx).cx.next_id,
            self.identified(self.build_spec(cx).state, self.build_spec(cx).cx.next_id),
            !self.ids(self.build_spec(cx).state).contains(self.build_spec(cx).id),
            forall|id: Id| #[trigger]
                self.ids(self.build_spec(cx).state).contains(id) ==> cx.next_id <= id.0,
    ;

    /// Rebuilding keeps the view's identity or mints a new one, and leaves
    /// the identities in its state in order: each of them was there before or
    /// is newly minted, and the view's identity is none of them.
    proof fn lemma_rebuild_identified(
        &self,
        prev: &Self,
        id: Id,
        state: StateModel,
        pod: Pod,
        cx: CxView,
    )
        requires
            prev.live(state),
            prev.identified(state, cx.next_id),
            id.0 < cx.next_id,
            !prev.ids(state).contains(id),
            cx.has_room(self.size()),
        ensures
            self.rebuild_spec(prev, id, state, pod, cx).id == id || cx.next_id <= self.rebuild_spec(
                prev,
                id,
                state,
                pod,
                cx,
            ).id.0 < self.rebuild_spec(prev, id, state, pod, cx).cx.next_id,
            self.identified(
                self.rebuild_spec(prev, id, state, pod, cx).state,
                self.rebuild_spec(prev, id, state, pod, cx).cx.next_id,
            ),
            !self.ids(self.rebuild_spec(prev, id, state, pod, cx).state).contains(
                self.rebuild_spec(prev, id, state, pod, cx).id,
            ),
            forall|x: Id| #[trigger]
                self.ids(self.rebuild_spec(prev, id, state, pod, cx).state).contains(x)
                    ==> prev.ids(state).contains(x) || cx.next_id <= x.0,
    ;

    /// Rebuilding a view against itself changes nothing and records nothing.
    proof fn lemma_rebuild_same(&self, id: Id, state: StateModel, pod: Pod, cx: CxView)
        requires
            self.live(state),
        ensures
            self.rebuild_spec(self, id, state, pod, cx) == (RebuiltNode {
                id,
                state,
                pod,
                cx,
                flags: ChangeFlags::empty(),
            }),
    ;
}

/// Whether the session `cx` can mint all that building `view`, or rebuilding
/// another view into it, takes at most.
pub fn can_build<T, A, V: ViewNode<T, A>>(view: &V, cx: &Cx) -> (enough: bool)
    ensures
        enough == cx@.has_room(view.size()),
{
    view.room_after(cx.room()).is_some()
}

} // verus!
