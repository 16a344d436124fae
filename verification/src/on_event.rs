use vstd::prelude::*;
use std::marker::PhantomData;
use crate::change_flags::ChangeFlags;
use crate::context::{Cx, CxView};
use crate::id::{Id, Pod};
use crate::message::{Message, MessageResult, MessageView};
use crate::mutation::MutationView;
use crate::view::{
    lemma_advanced_keeps_path, BuiltNode, Delivered, RebuiltNode, StateModel, ViewMarker, ViewNode,
};

verus! {

/// A view that listens on the live node of another view and answers what it
/// hears with an action.
pub struct OnEvent<T, A, V> {
    element: V,
    event: String,
    action: A,
    phantom: PhantomData<T>,
}

/// The state that belongs to an [`OnEvent`]: the state of the view it listens
/// on, and the identity that view was built under.
pub struct OnEventState<S> {
    pub child_state: S,
    pub child_id: Id,
}

/// The view that listens for `event` on the live node of `element` and
/// answers with `action`.
pub fn on_event<T, A: Copy, V: ViewNode<T, A>>(element: V, event: &str, action: A) -> (view: OnEvent<
    T,
    A,
    V,
>)
    ensures
        view.element_view() == element,
        view.event_view() == event@,
        view.action_view() == action,
{
    OnEvent { element, event: event.to_owned(), action, phantom: PhantomData }
}

impl<T, A, V> OnEvent<T, A, V> {
    /// The view that is listened on.
    pub closed spec fn element_view(&self) -> V {
        self.element
    }

    /// The name of what is listened for.
    pub closed spec fn event_view(&self) -> Seq<char> {
        self.event@
    }

    /// The action that is given in answer.
    pub closed spec fn action_view(&self) -> A {
        self.action
    }
}

impl<T, A: Copy, V: ViewNode<T, A>> OnEvent<T, A, V> {
    /// What rebuilding the view that is listened on yields, one step down the
    /// path.
    pub open spec fn inner_rebuilt(&self, prev: &Self, id: Id, state: StateModel, pod: Pod, cx: CxView) -> RebuiltNode {
        self.element_view().rebuild_spec(
            &prev.element_view(),
            state->Slot_id,
            *state->Slot_inner,
            pod,
            cx.push_id(id),
        )
    }

    /// Whether a rebuild has to start listening anew: the name changed, the
    /// rebuild of the view that is listened on left another live node than
    /// `pod`, or it said that the shape changed.
    pub open spec fn listens_anew(&self, prev: &Self, id: Id, state: StateModel, pod: Pod, cx: CxView) -> bool {
        let inner = self.inner_rebuilt(prev, id, state, pod, cx);
        prev.event_view() != self.event_view() || inner.pod != pod || inner.flags.contains(
            ChangeFlags::structure(),
        )
    }
}

impl<T, A, V> ViewMarker for OnEvent<T, A, V> {

}

impl<T, A: Copy, V: ViewNode<T, A>> ViewNode<T, A> for OnEvent<T, A, V> {
    type State = OnEventState<V::State>;

    open spec fn state_model(state: &OnEventState<V::State>) -> StateModel {
        StateModel::Slot { id: state.child_id, inner: Box::new(V::state_model(&state.child_state)) }
    }

    open spec fn size(&self) -> nat {
        1 + self.element_view().size()
    }

    open spec fn live(&self, state: StateModel) -> bool {
        state matches StateModel::Slot { inner, .. } && self.element_view().live(*inner)
    }

    open spec fn ids(&self, state: StateModel) -> Set<Id> {
        self.element_view().ids(*state->Slot_inner).insert(state->Slot_id)
    }

    open spec fn identified(&self, state: StateModel, bound: nat) -> bool {
        &&& state matches StateModel::Slot { id, inner }
        &&& id.0 < bound
        &&& self.element_view().identified(*inner, bound)
        &&& !self.element_view().ids(*inner).contains(id)
    }

    open spec fn build_spec(&self, cx: CxView) -> BuiltNode {
        let inner = self.element_view().build_spec(cx.push_new_id());
        BuiltNode {
            id: cx.fresh_id(),
            state: StateModel::Slot { id: inner.id, inner: Box::new(inner.state) },
            pod: inner.pod,
            cx: inner.cx.emit(
                MutationView::Listen {
                    node: inner.pod.node,
                    event: self.event_view(),
                    id_path: inner.cx.id_path,
                },
            ).pop_id(),
        }
    }

    open spec fn rebuild_spec(
        &self,
        prev: &Self,
        id: Id,
        state: StateModel,
        pod: Pod,
        cx: CxView,
    ) -> RebuiltNode {
        let inner = self.inner_rebuilt(prev, id, state, pod, cx);
        let anew = self.listens_anew(prev, id, state, pod, cx);
        RebuiltNode {
            id,
            state: StateModel::Slot { id: inner.id, inner: Box::new(inner.state) },
            pod: inner.pod,
            cx: if anew {
                inner.cx.emit(
                    MutationView::Listen {
                        node: inner.pod.node,
                        event: self.event_view(),
                        id_path: inner.cx.id_path,
                    },
                ).pop_id()
            } else {
                inner.cx.pop_id()
            },
            flags: if anew {
                inner.flags.union(ChangeFlags::other_change())
            } else {
                inner.flags
            },
        }
    }

    open spec fn message_spec(
        &self,
        id_path: Seq<Id>,
        state: StateModel,
        message: MessageView,
        app_state: T,
    ) -> Delivered<T, A> {
        if id_path.len() == 0 {
            if message.name == self.event_view() {
                Delivered { result: MessageResult::Action(self.action_view()), state, app_state }
            } else {
                Delivered { result: MessageResult::Stale, state, app_state }
            }
        } else if state is Slot && id_path[0] == state->Slot_id {
            let out = self.element_view().message_spec(
                id_path.skip(1),
                *state->Slot_inner,
                message,
                app_state,
            );
            Delivered {
                result: out.result,
                state: StateModel::Slot { id: state->Slot_id, inner: Box::new(out.state) },
                app_state: out.app_state,
            }
        } else {
            Delivered { result: MessageResult::Stale, state, app_state }
        }
    }

    fn build(&self, cx: &mut Cx) -> (built: (Id, OnEventState<V::State>, Pod)) {
        proof {
            ViewNode::lemma_build(self, cx@);
            ViewNode::lemma_build_identified(self, cx@);
            if cx@.path_minted() {
                cx@.lemma_fresh_is_off_the_path(ViewNode::build_spec(self, cx@).id);
                lemma_advanced_keeps_path(
                    cx@,
                    ViewNode::build_spec(self, cx@).cx,
                    ViewNode::size(self),
                );
            }
        }
        let id = cx.push_new_id();
        proof {
            self.element.lemma_build(cx@);
        }
        let (child_id, child_state, element) = self.element.build(cx);
        cx.listen(element.node, self.event.as_str());
        cx.pop_id();
        (id, OnEventState { child_state, child_id }, element)
    }

    fn rebuild(
        &self,
        cx: &mut Cx,
        prev: &Self,
        id: &mut Id,
        state: &mut OnEventState<V::State>,
        element: &mut Pod,
    ) -> (flags: ChangeFlags) {
        proof {
            let before = <Self as ViewNode<T, A>>::state_model(state);
            ViewNode::lemma_rebuild(self, prev, *id, before, *element, cx@);
            if cx@.path_minted() {
                lemma_advanced_keeps_path(
                    cx@,
                    ViewNode::rebuild_spec(self, prev, *id, before, *element, cx@).cx,
                    ViewNode::size(self),
                );
            }
        }
        cx.push_id(*id);
        proof {
            self.element.lemma_rebuild(
                &prev.element,
                state.child_id,
                V::state_model(&state.child_state),
                *element,
                cx@,
            );
        }
        let was = *element;
        let mut changed = self.element.rebuild(
            cx,
            &prev.element,
            &mut state.child_id,
            &mut state.child_state,
            element,
        );
        if prev.event != self.event || *element != was || changed.contains(
            ChangeFlags::structure(),
        ) {
            cx.listen(element.node, self.event.as_str());
            changed = changed.union(ChangeFlags::other_change());
        }
        cx.pop_id();
        changed
    }

    fn message(
        &self,
        id_path: &[Id],
        state: &mut OnEventState<V::State>,
        message: &Message,
        app_state: &mut T,
    ) -> (result: MessageResult<A>) {
        if id_path.len() == 0 {
            if message.name == self.event {
                MessageResult::Action(self.action)
            } else {
                MessageResult::Stale
            }
        } else if id_path[0] == state.child_id {
            let rest = vstd::slice::slice_subrange(id_path, 1, id_path.len());
            self.element.message(rest, &mut state.child_state, message, app_state)
        } else {
            MessageResult::Stale
        }
    }

    fn room_after(&self, room: u64) -> (left: Option<u64>) {
        if room >= 1 {
            self.element.room_after(room - 1)
        } else {
            None
        }
    }

    proof fn lemma_build(&self, cx: CxView) {
        let pushed = cx.push_new_id();
        self.element_view().lemma_build(pushed);
        let inner = self.element_view().build_spec(pushed);
        let out = ViewNode::build_spec(self, cx).cx;
        assert(out.id_path =~= cx.id_path);
        assert(out.log.take(cx.log.len() as int) =~= inner.cx.log.take(cx.log.len() as int));
    }

    proof fn lemma_rebuild(&self, prev: &Self, id: Id, state: StateModel, pod: Pod, cx: CxView) {
        let pushed = cx.push_id(id);
        self.element_view().lemma_rebuild(
            &prev.element_view(),
            state->Slot_id,
            *state->Slot_inner,
            pod,
            pushed,
        );
        let inner = self.inner_rebuilt(prev, id, state, pod, cx);
        let out = ViewNode::rebuild_spec(self, prev, id, state, pod, cx).cx;
        assert(out.id_path =~= cx.id_path);
        assert(out.log.take(cx.log.len() as int) =~= inner.cx.log.take(cx.log.len() as int));
    }

    proof fn lemma_identified_grows(&self, state: StateModel, bound: nat, later: nat) {
        self.element_view().lemma_identified_grows(*state->Slot_inner, bound, later);
    }

    proof fn lemma_ids_bounded(&self, state: StateModel, bound: nat) {
        self.element_view().lemma_ids_bounded(*state->Slot_inner, bound);
    }

    proof fn lemma_build_identified(&self, cx: CxView) {
        let pushed = cx.push_new_id();
        self.element_view().lemma_build(pushed);
        self.element_view().lemma_build_identified(pushed);
    }

    proof fn lemma_rebuild_identified(
        &self,
        prev: &Self,
        id: Id,
        state: StateModel,
        pod: Pod,
        cx: CxView,
    ) {
        let pushed = cx.push_id(id);
        self.element_view().lemma_rebuild(
            &prev.element_view(),
            state->Slot_id,
            *state->Slot_inner,
            pod,
            pushed,
        );
        self.element_view().lemma_rebuild_identified(
            &prev.element_view(),
            state->Slot_id,
            *state->Slot_inner,
            pod,
            pushed,
        );
        prev.element_view().lemma_ids_bounded(*state->Slot_inner, cx.next_id);
    }

    proof fn lemma_rebuild_same(&self, id: Id, state: StateModel, pod: Pod, cx: CxView) {
        let pushed = cx.push_id(id);
        self.element_view().lemma_rebuild_same(state->Slot_id, *state->Slot_inner, pod, pushed);
        ChangeFlags::lemma_named_sets();
        assert(pushed.pop_id() =~= cx) by {
            assert(pushed.pop_id().id_path =~= cx.id_path);
        }
    }
}

} // verus!
