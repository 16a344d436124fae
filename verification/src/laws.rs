use vstd::prelude::*;
use crate::change_flags::ChangeFlags;
use crate::context::CxView;
use crate::elements::{lemma_touched, CustomElement, HTML_NS};
use crate::tagged::{Element, Tag};
use crate::id::{Id, Pod};
use crate::message::{MessageResult, MessageView};
use crate::vec_sequence::{ids_at, lemma_removed_member_is_stale};
use crate::sequence::ViewSequence;
use crate::view::{
    lemma_advanced_keeps_path, Delivered, Rebuilt, RebuiltNode, StateModel, ViewNode,
};

verus! {

/// Building a view and rebuilding it against itself at once leaves what the
/// build left: the same identity, state and live node, the same session, and
/// nothing said to have changed.
pub proof fn lemma_build_then_rebuild<T, A, V: ViewNode<T, A>>(view: &V, cx: CxView)
    ensures
        ({
            let built = view.build_spec(cx);
            view.rebuild_spec(view, built.id, built.state, built.pod, built.cx) == (RebuiltNode {
                id: built.id,
                state: built.state,
                pod: built.pod,
                cx: built.cx,
                flags: ChangeFlags::empty(),
            })
        }),
{
    let built = view.build_spec(cx);
    view.lemma_build(cx);
    view.lemma_rebuild_same(built.id, built.state, built.pod, built.cx);
}

/// Building a list of views and rebuilding it against itself at once leaves
/// what the build left.
pub proof fn lemma_seq_build_then_rebuild<T, A, S: ViewSequence<T, A>>(views: &S, cx: CxView)
    ensures
        ({
            let built = views.seq_build_spec(cx);
            views.seq_rebuild_spec(views, built.state, built.pods, built.cx) == (Rebuilt {
                state: built.state,
                pods: built.pods,
                cx: built.cx,
                flags: ChangeFlags::empty(),
            })
        }),
{
    let built = views.seq_build_spec(cx);
    views.lemma_seq_build(cx);
    views.lemma_seq_rebuild_same(built.state, built.pods, built.cx);
}

/// Once a view has been rebuilt, rebuilding it again against itself finds
/// nothing left to do.
pub proof fn lemma_rebuild_settles<T, A, V: ViewNode<T, A>>(
    view: &V,
    prev: &V,
    id: Id,
    state: StateModel,
    pod: Pod,
    cx: CxView,
)
    requires
        prev.live(state),
    ensures
        ({
            let once = view.rebuild_spec(prev, id, state, pod, cx);
            view.rebuild_spec(view, once.id, once.state, once.pod, once.cx) == (RebuiltNode {
                id: once.id,
                state: once.state,
                pod: once.pod,
                cx: once.cx,
                flags: ChangeFlags::empty(),
            })
        }),
{
    let once = view.rebuild_spec(prev, id, state, pod, cx);
    view.lemma_rebuild(prev, id, state, pod, cx);
    view.lemma_rebuild_same(once.id, once.state, once.pod, once.cx);
}

/// A message for a child that is gone is stale: where the rebuild of an
/// element leaves its list of children shorter, a path that led to a child
/// past the new end is answered as stale afterwards, and the delivery changes
/// neither the state nor the application's state.
pub proof fn lemma_message_after_removal<T, A, VT: ViewSequence<T, A>>(
    view: &CustomElement<T, A, Vec<VT>>,
    prev: &CustomElement<T, A, Vec<VT>>,
    id: Id,
    state: StateModel,
    pod: Pod,
    cx: CxView,
    i: int,
    id_path: Seq<Id>,
    message: MessageView,
    app_state: T,
)
    requires
        prev.live(state),
        prev.identified(state, cx.next_id),
        cx.has_room(view.size()),
        view.children_view()@.len() <= i < prev.children_view()@.len(),
        id_path.len() > 0,
        ids_at::<T, A, VT>(
            prev.children_view()@,
            state->Element_children->List_0,
            i,
        ).contains(id_path[0]),
    ensures
        ({
            let after = view.rebuild_spec(prev, id, state, pod, cx).state;
            view.message_spec(id_path, after, message, app_state) == (Delivered::<T, A> {
                result: MessageResult::Stale,
                state: after,
                app_state,
            })
        }),
{
    let first = view.retagged(prev, state, pod, cx);
    lemma_touched(HTML_NS@, view.name_view(), view.declared(), state, pod, cx);
    lemma_removed_member_is_stale::<T, A, VT>(
        &view.children_view(),
        &prev.children_view(),
        *state->Element_children,
        state->Element_child_elements,
        first.cx.push_id(id),
        i,
        id_path,
        message,
        app_state,
    );
}

/// The same holds of an element of a fixed kind: a message for a child that
/// its rebuild removed is stale afterwards.
pub proof fn lemma_message_after_removal_in_kind<Tg: Tag, T, A, VT: ViewSequence<T, A>>(
    view: &Element<Tg, T, A, Vec<VT>>,
    prev: &Element<Tg, T, A, Vec<VT>>,
    id: Id,
    state: StateModel,
    pod: Pod,
    cx: CxView,
    i: int,
    id_path: Seq<Id>,
    message: MessageView,
    app_state: T,
)
    requires
        prev.live(state),
        prev.identified(state, cx.next_id),
        cx.has_room(view.size()),
        view.children_view()@.len() <= i < prev.children_view()@.len(),
        id_path.len() > 0,
        ids_at::<T, A, VT>(
            prev.children_view()@,
            state->Element_children->List_0,
            i,
        ).contains(id_path[0]),
    ensures
        ({
            let after = view.rebuild_spec(prev, id, state, pod, cx).state;
            view.message_spec(id_path, after, message, app_state) == (Delivered::<T, A> {
                result: MessageResult::Stale,
                state: after,
                app_state,
            })
        }),
{
    lemma_touched(Tg::namespace_view(), Tg::name_view(), view.declared(), state, pod, cx);
    lemma_removed_member_is_stale::<T, A, VT>(
        &view.children_view(),
        &prev.children_view(),
        *state->Element_children,
        state->Element_child_elements,
        crate::elements::retouched(view.declared(), state, pod, cx).cx.push_id(id),
        i,
        id_path,
        message,
        app_state,
    );
}

/// Identities do not repeat along a path: in a session whose path holds
/// minted identities only, the identity that a build mints for the view is no
/// segment of the path, nor is any identity that the build leaves in the
/// view's state, and none of these is the view's own. The path that the
/// build leaves holds minted identities only.
pub proof fn lemma_built_identities_are_off_the_path<T, A, V: ViewNode<T, A>>(view: &V, cx: CxView)
    requires
        cx.path_minted(),
        cx.has_room(view.size()),
    ensures
        !cx.id_path.contains(view.build_spec(cx).id),
        forall|id: Id| #[trigger]
            view.ids(view.build_spec(cx).state).contains(id) ==> !cx.id_path.contains(id) && id
                != view.build_spec(cx).id,
        view.build_spec(cx).cx.path_minted(),
{
    let built = view.build_spec(cx);
    view.lemma_build(cx);
    view.lemma_build_identified(cx);
    cx.lemma_fresh_is_off_the_path(built.id);
    lemma_advanced_keeps_path(cx, built.cx, view.size());
    assert forall|id: Id| #[trigger] view.ids(built.state).contains(id) implies !cx.id_path.contains(
        id,
    ) && id != built.id by {
        cx.lemma_fresh_is_off_the_path(id);
    }
}

/// A rebuild keeps identities from repeating along a path: where neither the
/// view's identity nor any identity in its state is a segment of the path
/// before, none is after, and none in the state is the view's own.
pub proof fn lemma_rebuilt_identities_stay_off_the_path<T, A, V: ViewNode<T, A>>(
    view: &V,
    prev: &V,
    id: Id,
    state: StateModel,
    pod: Pod,
    cx: CxView,
)
    requires
        prev.live(state),
        prev.identified(state, cx.next_id),
        id.0 < cx.next_id,
        !prev.ids(state).contains(id),
        cx.has_room(view.size()),
        cx.path_minted(),
        !cx.id_path.contains(id),
        forall|x: Id| #[trigger] prev.ids(state).contains(x) ==> !cx.id_path.contains(x),
    ensures
        !cx.id_path.contains(view.rebuild_spec(prev, id, state, pod, cx).id),
        forall|x: Id| #[trigger]
            view.ids(view.rebuild_spec(prev, id, state, pod, cx).state).contains(x)
                ==> !cx.id_path.contains(x) && x != view.rebuild_spec(prev, id, state, pod, cx).id,
        view.rebuild_spec(prev, id, state, pod, cx).cx.path_minted(),
{
    let out = view.rebuild_spec(prev, id, state, pod, cx);
    view.lemma_rebuild(prev, id, state, pod, cx);
    view.lemma_rebuild_identified(prev, id, state, pod, cx);
    lemma_advanced_keeps_path(cx, out.cx, view.size());
    if out.id != id {
        cx.lemma_fresh_is_off_the_path(out.id);
    }
    assert forall|x: Id| #[trigger] view.ids(out.state).contains(x) implies !cx.id_path.contains(
        x,
    ) && x != out.id by {
        if !prev.ids(state).contains(x) {
            cx.lemma_fresh_is_off_the_path(x);
        }
    }
}

} // verus!
