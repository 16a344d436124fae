use vstd::prelude::*;
use crate::change_flags::ChangeFlags;
use crate::context::{Cx, CxView};
use crate::id::{Id, Pod};
use crate::message::{Message, MessageResult, MessageView};
use crate::mutation::{Mutation, MutationView};
use crate::view::{
    lemma_advanced_keeps_path, BuiltNode, Delivered, RebuiltNode, StateModel, ViewMarker, ViewNode,
};

verus! {

impl ViewMarker for String {

}

/// A string is the view of a text node that reads it.
impl<T, A> ViewNode<T, A> for String {
    type State = ();

    open spec fn state_model(state: &()) -> StateModel {
        StateModel::Unit
    }

    open spec fn size(&self) -> nat {
        1
    }

    open spec fn live(&self, state: StateModel) -> bool {
        state == StateModel::Unit
    }

    open spec fn ids(&self, state: StateModel) -> Set<Id> {
        Set::empty()
    }

    open spec fn identified(&self, state: StateModel, bound: nat) -> bool {
        true
    }

    open spec fn build_spec(&self, cx: CxView) -> BuiltNode {
        BuiltNode {
            id: cx.fresh_id(),
            state: StateModel::Unit,
            pod: Pod { node: cx.fresh_node() },
            cx: cx.push_new_id().build_text(self@).pop_id(),
        }
    }

    open spec fn rebuild_spec(
        &self,
        prev: &Self,
        id: Id,
        state: StateModel,
        pod: Pod,
        cx: CxView,
    ) -> RebuiltNode {
        if prev@ != self@ {
            RebuiltNode {
                id,
                state: StateModel::Unit,
                pod,
                cx: cx.emit(MutationView::SetText { node: pod.node, content: self@ }),
                flags: ChangeFlags::other_change(),
            }
        } else {
            RebuiltNode { id, state: StateModel::Unit, pod, cx, flags: ChangeFlags::empty() }
        }
    }

    open spec fn message_spec(
        &self,
        id_path: Seq<Id>,
        state: StateModel,
        message: MessageView,
        app_state: T,
    ) -> Delivered<T, A> {
        Delivered { result: MessageResult::Stale, state: StateModel::Unit, app_state }
    }

    fn build(&self, cx: &mut Cx) -> (built: (Id, (), Pod)) {
        proof {
            <Self as ViewNode<T, A>>::lemma_build(self, cx@);
            <Self as ViewNode<T, A>>::lemma_build_identified(self, cx@);
            if cx@.path_minted() {
                cx@.lemma_fresh_is_off_the_path(<Self as ViewNode<T, A>>::build_spec(self, cx@).id);
                lemma_advanced_keeps_path(
                    cx@,
                    <Self as ViewNode<T, A>>::build_spec(self, cx@).cx,
                    <Self as ViewNode<T, A>>::size(self),
                );
            }
        }
        let id = cx.push_new_id();
        let pod = cx.build_text(self.as_str());
        cx.pop_id();
        (id, (), pod)
    }

    fn rebuild(&self, cx: &mut Cx, prev: &Self, id: &mut Id, state: &mut (), element: &mut Pod) -> (flags:
        ChangeFlags) {
        proof {
            <Self as ViewNode<T, A>>::lemma_rebuild(self, prev, *id, StateModel::Unit, *element, cx@);
            if cx@.path_minted() {
                lemma_advanced_keeps_path(
                    cx@,
                    <Self as ViewNode<T, A>>::rebuild_spec(
                        self,
                        prev,
                        *id,
                        StateModel::Unit,
                        *element,
                        cx@,
                    ).cx,
                    1,
                );
            }
        }
        if *prev != *self {
            cx.emit(Mutation::SetText { node: element.node, content: self.clone() });
            ChangeFlags::other_change()
        } else {
            ChangeFlags::empty()
        }
    }

    fn message(&self, id_path: &[Id], state: &mut (), message: &Message, app_state: &mut T) -> (result:
        MessageResult<A>) {
        MessageResult::Stale
    }

    fn room_after(&self, room: u64) -> (left: Option<u64>) {
        if room >= 1 {
            Some(room - 1)
        } else {
            None
        }
    }

    proof fn lemma_build(&self, cx: CxView) {
        let out = <Self as ViewNode<T, A>>::build_spec(self, cx).cx;
        assert(out.id_path =~= cx.id_path);
        assert(out.log.take(cx.log.len() as int) =~= cx.log);
    }

    proof fn lemma_rebuild(&self, prev: &Self, id: Id, state: StateModel, pod: Pod, cx: CxView) {
        let out = <Self as ViewNode<T, A>>::rebuild_spec(self, prev, id, state, pod, cx).cx;
        assert(out.log.take(cx.log.len() as int) =~= cx.log);
    }

    proof fn lemma_identified_grows(&self, state: StateModel, bound: nat, later: nat) {
    }

    proof fn lemma_ids_bounded(&self, state: StateModel, bound: nat) {
    }

    proof fn lemma_build_identified(&self, cx: CxView) {
    }

    proof fn lemma_rebuild_identified(
        &self,
        prev: &Self,
        id: Id,
        state: StateModel,
        pod: Pod,
        cx: CxView,
    ) {
    }

    proof fn lemma_rebuild_same(&self, id: Id, state: StateModel, pod: Pod, cx: CxView) {
    }
}

} // verus!
