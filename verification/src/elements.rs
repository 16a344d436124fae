use vstd::prelude::*;
use std::marker::PhantomData;
use crate::attributes::{
    apply_attribute_changes, attr_view, diff, diff_flags, lemma_diff_same, lemma_normalize_unique,
    normalize, AttrSeq, AttributeTable,
};
use crate::change_flags::ChangeFlags;
use crate::context::{Cx, CxView};
use crate::id::{Id, Pod};
use crate::message::{Message, MessageResult, MessageView};
use crate::mutation::{append_all, Mutation, MutationView};
use crate::sequence::ViewSequence;
use crate::vec_splice::VecSplice;
use crate::view::{
    advanced, lemma_advanced_keeps_path, BuiltNode, Delivered, RebuiltNode, StateModel, ViewMarker,
    ViewNode,
};

verus! {

/// The namespace of HTML elements.
pub const HTML_NS: &'static str = "http://www.w3.org/1999/xhtml";

/// The namespace of SVG elements.
pub const SVG_NS: &'static str = "http://www.w3.org/2000/svg";

/// The namespace of MathML elements.
pub const MATHML_NS: &'static str = "http://www.w3.org/1998/Math/MathML";

/// The state that belongs to a live element: the state of its children, the
/// attributes it carries, and its live children in order.
pub struct ElementState<ViewSeqState> {
    pub children_states: ViewSeqState,
    pub attributes: AttributeTable,
    pub child_elements: Vec<Pod>,
    pub scratch: Vec<Pod>,
}

/// How far the first steps of a rebuild have come: the live node as it is
/// now, the session, and what has changed so far.
pub struct Touched {
    pub pod: Pod,
    pub cx: CxView,
    pub flags: ChangeFlags,
}

/// The state of an element as contracts see it.
pub open spec fn element_model<T, A, C: ViewSequence<T, A>>(state: &ElementState<C::State>) -> StateModel {
    StateModel::Element {
        children: Box::new(C::seq_state_model(&state.children_states)),
        attributes: state.attributes@,
        child_elements: state.child_elements@,
        scratch: state.scratch@,
    }
}

/// `state` is the state of an element whose children `children` left it: it
/// holds a state of theirs, one live child for each live node that this state
/// counts, and nothing in its scratch vector.
pub open spec fn children_live<T, A, C: ViewSequence<T, A>>(children: C, state: StateModel) -> bool {
    &&& state matches StateModel::Element { children: inner, child_elements, scratch, .. }
    &&& children.seq_live(*inner)
    &&& child_elements.len() == children.count_spec(*inner)
    &&& scratch == Seq::<Pod>::empty()
}

/// `state` is a state that building or rebuilding an element with the
/// attributes `declared` and the children `children` leaves.
pub open spec fn element_live<T, A, C: ViewSequence<T, A>>(
    declared: AttrSeq,
    children: C,
    state: StateModel,
) -> bool {
    children_live::<T, A, C>(children, state) && state->Element_attributes == normalize(declared)
}

/// The identities that the state of an element with the children `children`
/// holds.
pub open spec fn element_ids<T, A, C: ViewSequence<T, A>>(children: C, state: StateModel) -> Set<Id> {
    children.seq_ids(*state->Element_children)
}

/// The identities in the state of an element with the children `children`
/// keep to `bound`.
pub open spec fn element_identified<T, A, C: ViewSequence<T, A>>(
    children: C,
    state: StateModel,
    bound: nat,
) -> bool {
    state is Element && children.seq_identified(*state->Element_children, bound)
}

/// What building the element `name` of `namespace` yields in the session
/// `cx`: the live node is made, given its attributes, and then its children,
/// built one step down the path, in order.
pub open spec fn element_built<T, A, C: ViewSequence<T, A>>(
    namespace: Seq<char>,
    name: Seq<char>,
    declared: AttrSeq,
    children: C,
    cx: CxView,
) -> BuiltNode {
    let pod = Pod { node: cx.fresh_node() };
    let table = normalize(declared);
    let made = cx.build_element(namespace, name).emit_all(diff(pod.node, Seq::empty(), table));
    let id = made.fresh_id();
    let kids = children.seq_build_spec(made.push_new_id());
    let hung = kids.cx.pop_id().emit_all(append_all(pod.node, kids.pods));
    BuiltNode {
        id,
        state: StateModel::Element {
            children: Box::new(kids.state),
            attributes: table,
            child_elements: kids.pods,
            scratch: Seq::empty(),
        },
        pod,
        cx: if cx.debug_ids {
            hung.emit(MutationView::SetDebugId { node: pod.node, id })
        } else {
            hung
        },
    }
}

/// A rebuild that keeps the live node `pod`: its attributes are taken from
/// what `state` says it carries to what `declared` describes.
pub open spec fn retouched(declared: AttrSeq, state: StateModel, pod: Pod, cx: CxView) -> Touched {
    let changes = diff(pod.node, state->Element_attributes, normalize(declared));
    Touched { pod, cx: cx.emit_all(changes), flags: diff_flags(changes) }
}

/// A rebuild that replaces the live node `pod`: it is taken off its parent,
/// the element `name` of `namespace` is made in its stead, the live children
/// move over, and the new node is given its attributes.
pub open spec fn replaced(
    namespace: Seq<char>,
    name: Seq<char>,
    declared: AttrSeq,
    state: StateModel,
    pod: Pod,
    cx: CxView,
) -> Touched {
    let fresh = Pod { node: cx.fresh_node() };
    let changes = diff(fresh.node, Seq::empty(), normalize(declared));
    Touched {
        pod: fresh,
        cx: cx.emit(MutationView::RemoveFromParent { node: pod.node }).build_element(
            namespace,
            name,
        ).emit_all(append_all(fresh.node, state->Element_child_elements)).emit_all(changes),
        flags: ChangeFlags::structure().union(diff_flags(changes)),
    }
}

/// What the rebuild of the children under `id` yields once the first steps
/// have come as far as `first`.
pub open spec fn children_rebuilt<T, A, C: ViewSequence<T, A>>(
    first: Touched,
    children: C,
    prev_children: C,
    id: Id,
    state: StateModel,
) -> crate::view::Rebuilt {
    children.seq_rebuild_spec(
        &prev_children,
        *state->Element_children,
        state->Element_child_elements,
        first.cx.push_id(id),
    )
}

/// The mutations that put the live children `children` back under `node`,
/// in order, whatever hung there before.
pub open spec fn resync(node: crate::id::NodeId, children: Seq<Pod>) -> Seq<MutationView> {
    seq![MutationView::ClearChildren { node }] + append_all(node, children)
}

/// What the rebuild of an element yields once the first steps have come as
/// far as `first`: the children are rebuilt one step down the path, and where
/// anything changed shape, the live children are put back under the live
/// node and the structural flag is cleared.
pub open spec fn element_rebuilt<T, A, C: ViewSequence<T, A>>(
    first: Touched,
    declared: AttrSeq,
    children: C,
    prev_children: C,
    id: Id,
    state: StateModel,
) -> RebuiltNode {
    let kids = children_rebuilt::<T, A, C>(first, children, prev_children, id, state);
    let after = kids.cx.pop_id();
    let all = first.flags.union(kids.flags);
    let shape = all.contains(ChangeFlags::structure());
    RebuiltNode {
        id,
        state: StateModel::Element {
            children: Box::new(kids.state),
            attributes: normalize(declared),
            child_elements: kids.pods,
            scratch: Seq::empty(),
        },
        pod: first.pod,
        cx: if shape {
            after.emit_all(resync(first.pod.node, kids.pods))
        } else {
            after
        },
        flags: if shape {
            all.spec_difference(ChangeFlags::structure())
        } else {
            all
        },
    }
}

/// What delivering a message to an element yields: elements answer nothing
/// themselves and hand every message on to their children.
pub open spec fn element_delivered<T, A, C: ViewSequence<T, A>>(
    children: C,
    id_path: Seq<Id>,
    state: StateModel,
    message: MessageView,
    app_state: T,
) -> Delivered<T, A> {
    let out = children.seq_message_spec(id_path, *state->Element_children, message, app_state);
    Delivered {
        result: out.result,
        state: StateModel::Element {
            children: Box::new(out.state),
            attributes: state->Element_attributes,
            child_elements: state->Element_child_elements,
            scratch: state->Element_scratch,
        },
        app_state: out.app_state,
    }
}

/// The first steps of a rebuild move the session on by one node handle at
/// most.
pub proof fn lemma_touched(
    namespace: Seq<char>,
    name: Seq<char>,
    declared: AttrSeq,
    state: StateModel,
    pod: Pod,
    cx: CxView,
)
    ensures
        advanced(cx, retouched(declared, state, pod, cx).cx, 1),
        advanced(cx, replaced(namespace, name, declared, state, pod, cx).cx, 1),
        retouched(declared, state, pod, cx).cx.next_id == cx.next_id,
        replaced(namespace, name, declared, state, pod, cx).cx.next_id == cx.next_id,
{
    let kept = retouched(declared, state, pod, cx).cx;
    let made = replaced(namespace, name, declared, state, pod, cx).cx;
    assert(kept.log.take(cx.log.len() as int) =~= cx.log);
    assert(made.log.take(cx.log.len() as int) =~= cx.log);
}

/// Building an element leaves a state of it and moves the session on by no
/// more than one and the size of its children.
pub proof fn lemma_element_built<T, A, C: ViewSequence<T, A>>(
    namespace: Seq<char>,
    name: Seq<char>,
    declared: AttrSeq,
    children: C,
    cx: CxView,
)
    ensures
        element_live::<T, A, C>(
            declared,
            children,
            element_built::<T, A, C>(namespace, name, declared, children, cx).state,
        ),
        advanced(
            cx,
            element_built::<T, A, C>(namespace, name, declared, children, cx).cx,
            1 + children.seq_size(),
        ),
{
    let pod = Pod { node: cx.fresh_node() };
    let made = cx.build_element(namespace, name).emit_all(
        diff(pod.node, Seq::empty(), normalize(declared)),
    );
    let kids = children.seq_build_spec(made.push_new_id());
    children.lemma_seq_build(made.push_new_id());
    let out = element_built::<T, A, C>(namespace, name, declared, children, cx).cx;
    assert(kids.cx.pop_id().id_path =~= cx.id_path);
    assert(made.log.take(cx.log.len() as int) =~= cx.log);
    assert(kids.cx.log.take(cx.log.len() as int) =~= kids.cx.log.take(made.log.len() as int).take(
        cx.log.len() as int,
    ));
    assert(out.log.take(cx.log.len() as int) =~= kids.cx.log.take(cx.log.len() as int));
}

/// Rebuilding an element leaves a state of it and moves the session on by no
/// more than one and the size of its children.
pub proof fn lemma_element_rebuilt<T, A, C: ViewSequence<T, A>>(
    first: Touched,
    declared: AttrSeq,
    children: C,
    prev_children: C,
    id: Id,
    state: StateModel,
    cx: CxView,
)
    requires
        children_live::<T, A, C>(prev_children, state),
        advanced(cx, first.cx, 1),
    ensures
        element_live::<T, A, C>(
            declared,
            children,
            element_rebuilt::<T, A, C>(first, declared, children, prev_children, id, state).state,
        ),
        advanced(
            cx,
            element_rebuilt::<T, A, C>(first, declared, children, prev_children, id, state).cx,
            1 + children.seq_size(),
        ),
{
    let pushed = first.cx.push_id(id);
    let kids = children_rebuilt::<T, A, C>(first, children, prev_children, id, state);
    children.lemma_seq_rebuild(
        &prev_children,
        *state->Element_children,
        state->Element_child_elements,
        pushed,
    );
    let out = element_rebuilt::<T, A, C>(first, declared, children, prev_children, id, state).cx;
    assert(kids.cx.pop_id().id_path =~= cx.id_path);
    assert(kids.cx.log.take(cx.log.len() as int) =~= kids.cx.log.take(
        first.cx.log.len() as int,
    ).take(cx.log.len() as int));
    assert(out.log.take(cx.log.len() as int) =~= kids.cx.log.take(cx.log.len() as int));
}

/// Rebuilding an element against itself changes nothing and records nothing.
pub proof fn lemma_element_rebuilt_same<T, A, C: ViewSequence<T, A>>(
    declared: AttrSeq,
    children: C,
    id: Id,
    state: StateModel,
    pod: Pod,
    cx: CxView,
)
    requires
        element_live::<T, A, C>(declared, children, state),
    ensures
        element_rebuilt::<T, A, C>(
            retouched(declared, state, pod, cx),
            declared,
            children,
            children,
            id,
            state,
        ) == (RebuiltNode { id, state, pod, cx, flags: ChangeFlags::empty() }),
{
    lemma_normalize_unique(declared);
    lemma_diff_same(pod.node, normalize(declared));
    let first = retouched(declared, state, pod, cx);
    assert(first.cx =~= cx) by {
        assert(first.cx.log =~= cx.log);
    }
    ChangeFlags::lemma_union_unit(ChangeFlags::empty());
    ChangeFlags::lemma_named_sets();
    let pushed = cx.push_id(id);
    children.lemma_seq_rebuild_same(*state->Element_children, state->Element_child_elements, pushed);
    assert(pushed.pop_id() =~= cx) by {
        assert(pushed.pop_id().id_path =~= cx.id_path);
    }
}

/// A rebuild hands no structural flag up. Where the list of children changed
/// shape, or the first steps left a structural flag, the last thing recorded
/// is that the live children are put back under the live node, in order;
/// where not, nothing is recorded after the children's own rebuild.
pub proof fn lemma_structure_contained<T, A, C: ViewSequence<T, A>>(
    first: Touched,
    declared: AttrSeq,
    children: C,
    prev_children: C,
    id: Id,
    state: StateModel,
)
    ensures
        ({
            let out = element_rebuilt::<T, A, C>(first, declared, children, prev_children, id, state);
            let kids = children_rebuilt::<T, A, C>(first, children, prev_children, id, state);
            let shape = first.flags.contains(ChangeFlags::structure()) || kids.flags.contains(
                ChangeFlags::structure(),
            );
            &&& !out.flags.contains(ChangeFlags::structure())
            &&& out.flags.contains(ChangeFlags::other_change()) == (first.flags.contains(
                ChangeFlags::other_change(),
            ) || kids.flags.contains(ChangeFlags::other_change()))
            &&& out.state->Element_child_elements == kids.pods
            &&& shape ==> out.cx.log == kids.cx.log + resync(out.pod.node, kids.pods)
            &&& !shape ==> out.cx.log == kids.cx.log
        }),
{
    let kids = children_rebuilt::<T, A, C>(first, children, prev_children, id, state);
    let all = first.flags.union(kids.flags);
    ChangeFlags::lemma_union_contains(first.flags, kids.flags);
    ChangeFlags::lemma_remove_structure(all);
}

/// Building an element mints its identity, and those of its children, in the
/// course of the build.
pub proof fn lemma_element_built_identified<T, A, C: ViewSequence<T, A>>(
    namespace: Seq<char>,
    name: Seq<char>,
    declared: AttrSeq,
    children: C,
    cx: CxView,
)
    requires
        cx.has_room(1 + children.seq_size()),
    ensures
        ({
            let out = element_built::<T, A, C>(namespace, name, declared, children, cx);
            &&& cx.next_id <= out.id.0 < out.cx.next_id
            &&& element_identified::<T, A, C>(children, out.state, out.cx.next_id)
            &&& !element_ids::<T, A, C>(children, out.state).contains(out.id)
            &&& forall|id: Id| #[trigger]
                element_ids::<T, A, C>(children, out.state).contains(id) ==> cx.next_id <= id.0
        }),
{
    let pod = Pod { node: cx.fresh_node() };
    let made = cx.build_element(namespace, name).emit_all(
        diff(pod.node, Seq::empty(), normalize(declared)),
    );
    children.lemma_seq_build(made.push_new_id());
    children.lemma_seq_build_identified(made.push_new_id());
}

/// Rebuilding an element leaves the identities of its children in order:
/// each of them was there before or is newly minted, and none of them is the
/// element's own.
pub proof fn lemma_element_rebuilt_identified<T, A, C: ViewSequence<T, A>>(
    first: Touched,
    declared: AttrSeq,
    children: C,
    prev_children: C,
    id: Id,
    state: StateModel,
    cx: CxView,
)
    requires
        children_live::<T, A, C>(prev_children, state),
        element_identified::<T, A, C>(prev_children, state, cx.next_id),
        id.0 < cx.next_id,
        !element_ids::<T, A, C>(prev_children, state).contains(id),
        advanced(cx, first.cx, 1),
        first.cx.next_id == cx.next_id,
        cx.has_room(1 + children.seq_size()),
    ensures
        ({
            let out = element_rebuilt::<T, A, C>(first, declared, children, prev_children, id, state);
            &&& element_identified::<T, A, C>(children, out.state, out.cx.next_id)
            &&& !element_ids::<T, A, C>(children, out.state).contains(id)
            &&& forall|x: Id| #[trigger]
                element_ids::<T, A, C>(children, out.state).contains(x) ==> element_ids::<T, A, C>(
                    prev_children,
                    state,
                ).contains(x) || cx.next_id <= x.0
        }),
{
    let pushed = first.cx.push_id(id);
    children.lemma_seq_rebuild(
        &prev_children,
        *state->Element_children,
        state->Element_child_elements,
        pushed,
    );
    children.lemma_seq_rebuild_identified(
        &prev_children,
        *state->Element_children,
        state->Element_child_elements,
        pushed,
    );
}

/// Builds the element `name` of `namespace` with the attributes `attributes`
/// and the children `children`.
pub fn build_element_view<T, A, C: ViewSequence<T, A>>(
    cx: &mut Cx,
    namespace: &str,
    name: &str,
    attributes: &Vec<(String, String)>,
    children: &C,
) -> (built: (Id, ElementState<C::State>, Pod))
    requires
        old(cx)@.has_room(1 + children.seq_size()),
    ensures
        ({
            let out = element_built::<T, A, C>(
                namespace@,
                name@,
                attr_view(attributes@),
                *children,
                old(cx)@,
            );
            &&& built.0 == out.id
            &&& element_model::<T, A, C>(&built.1) == out.state
            &&& built.2 == out.pod
            &&& final(cx)@ == out.cx
            &&& old(cx)@.path_minted() ==> !old(cx)@.id_path.contains(built.0)
                && final(cx)@.path_minted()
        }),
{
    proof {
        let declared = attr_view(attributes@);
        let out = element_built::<T, A, C>(namespace@, name@, declared, *children, cx@);
        lemma_element_built::<T, A, C>(namespace@, name@, declared, *children, cx@);
        lemma_element_built_identified::<T, A, C>(namespace@, name@, declared, *children, cx@);
        if cx@.path_minted() {
            cx@.lemma_fresh_is_off_the_path(out.id);
            lemma_advanced_keeps_path(cx@, out.cx, 1 + children.seq_size());
        }
    }
    let el = cx.build_element(namespace, name);
    let mut table = AttributeTable::new();
    let _ = apply_attribute_changes(cx, el.node, &mut table, attributes);
    let mut child_elements: Vec<Pod> = Vec::new();
    let id = cx.push_new_id();
    proof {
        children.lemma_seq_build(cx@);
    }
    let ghost pushed = cx@;
    let children_states = children.seq_build(cx, &mut child_elements);
    cx.pop_id();
    assert(child_elements@ =~= children.seq_build_spec(pushed).pods);
    cx.append_children(el.node, &child_elements);
    if cx.debug_ids() {
        cx.emit(Mutation::SetDebugId { node: el.node, id });
    }
    let state = ElementState {
        children_states,
        attributes: table,
        child_elements,
        scratch: Vec::new(),
    };
    (id, state, el)
}

/// Rebuilds an element against the one that left `state` and `element`.
///
/// With `replace` the live node gives way to a new element `name` of
/// `namespace`, to which the live children move; without it the live node
/// stays. Then the attributes are brought in line with `attributes`, the
/// children are rebuilt against `prev_children` one step down the path, and
/// where anything changed shape the live children are put back under the
/// live node in order.
pub fn rebuild_element_view<T, A, C: ViewSequence<T, A>>(
    cx: &mut Cx,
    replace: bool,
    namespace: &str,
    name: &str,
    attributes: &Vec<(String, String)>,
    children: &C,
    prev_children: &C,
    id: Id,
    state: &mut ElementState<C::State>,
    element: &mut Pod,
) -> (flags: ChangeFlags)
    requires
        children_live::<T, A, C>(*prev_children, element_model::<T, A, C>(old(state))),
        old(cx)@.has_room(1 + children.seq_size()),
    ensures
        ({
            let before = element_model::<T, A, C>(old(state));
            let declared = attr_view(attributes@);
            let first = if replace {
                replaced(namespace@, name@, declared, before, *old(element), old(cx)@)
            } else {
                retouched(declared, before, *old(element), old(cx)@)
            };
            let out = element_rebuilt::<T, A, C>(
                first,
                declared,
                *children,
                *prev_children,
                id,
                before,
            );
            &&& element_model::<T, A, C>(final(state)) == out.state
            &&& *final(element) == out.pod
            &&& final(cx)@ == out.cx
            &&& flags == out.flags
            &&& !flags.contains(ChangeFlags::structure())
            &&& old(cx)@.path_minted() ==> final(cx)@.path_minted()
        }),
{
    proof {
        let before = element_model::<T, A, C>(state);
        let declared = attr_view(attributes@);
        let first = if replace {
            replaced(namespace@, name@, declared, before, *element, cx@)
        } else {
            retouched(declared, before, *element, cx@)
        };
        lemma_touched(namespace@, name@, declared, before, *element, cx@);
        lemma_element_rebuilt::<T, A, C>(
            first,
            declared,
            *children,
            *prev_children,
            id,
            before,
            cx@,
        );
        if cx@.path_minted() {
            lemma_advanced_keeps_path(
                cx@,
                element_rebuilt::<T, A, C>(first, declared, *children, *prev_children, id, before).cx,
                1 + children.seq_size(),
            );
        }
    }
    let ghost before = element_model::<T, A, C>(state);
    let ghost declared = attr_view(attributes@);
    let ghost first = if replace {
        replaced(namespace@, name@, declared, before, *element, cx@)
    } else {
        retouched(declared, before, *element, cx@)
    };
    let mut changed = ChangeFlags::empty();
    if replace {
        cx.emit(Mutation::RemoveFromParent { node: element.node });
        let new_element = cx.build_element(namespace, name);
        state.attributes = AttributeTable::new();
        cx.append_children(new_element.node, &state.child_elements);
        *element = new_element;
        changed = changed.union(ChangeFlags::structure());
    }
    let attr_flags = apply_attribute_changes(cx, element.node, &mut state.attributes, attributes);
    changed = changed.union(attr_flags);
    proof {
        ChangeFlags::lemma_union_unit(ChangeFlags::structure());
        ChangeFlags::lemma_union_unit(attr_flags);
        lemma_touched(namespace@, name@, declared, before, *old(element), old(cx)@);
        assert(cx@ == first.cx);
        assert(changed == first.flags);
    }
    cx.push_id(id);
    proof {
        children.lemma_seq_rebuild(
            prev_children,
            C::seq_state_model(&state.children_states),
            state.child_elements@,
            cx@,
        );
        lemma_structure_contained::<T, A, C>(
            first,
            declared,
            *children,
            *prev_children,
            id,
            before,
        );
    }
    assert(state.child_elements@.len() == state.child_elements.len());
    let mut splice = VecSplice::new(&mut state.child_elements, &mut state.scratch);
    assert(splice.pending() =~= old(state).child_elements@);
    assert(splice.pending().take(splice.pending().len() as int) =~= splice.pending());
    let child_flags = children.seq_rebuild(
        cx,
        prev_children,
        &mut state.children_states,
        &mut splice,
    );
    assert(splice.pending() =~= Seq::<Pod>::empty());
    splice.finish(&mut state.child_elements, &mut state.scratch);
    cx.pop_id();
    changed = changed.union(child_flags);
    let ghost hung = cx@.log;
    if changed.contains(ChangeFlags::structure()) {
        cx.emit(Mutation::ClearChildren { node: element.node });
        cx.append_children(element.node, &state.child_elements);
        changed.remove(ChangeFlags::structure());
        assert(cx@.log =~= hung + resync(element.node, state.child_elements@));
    }
    changed
}

/// The view of an element whose tag is given by name.
pub struct CustomElement<T, A, Children> {
    name: String,
    attributes: Vec<(String, String)>,
    children: Children,
    phantom: PhantomData<(T, A)>,
}

/// The view of the element `name` with the children `children` and no
/// attributes.
pub fn custom_element<T, A, Children: ViewSequence<T, A>>(name: &str, children: Children) -> (view:
    CustomElement<T, A, Children>)
    ensures
        view.name_view() == name@,
        view.declared() == Seq::<(Seq<char>, Seq<char>)>::empty(),
        view.children_view() == children,
{
    let view = CustomElement {
        name: name.to_owned(),
        attributes: Vec::new(),
        children,
        phantom: PhantomData,
    };
    assert(view.declared() =~= Seq::empty());
    view
}

impl<T, A, Children> CustomElement<T, A, Children> {
    /// The tag of the element.
    pub closed spec fn name_view(&self) -> Seq<char> {
        self.name@
    }

    /// The attributes as they were declared, in order. A name may occur more
    /// than once; the last declaration counts.
    pub closed spec fn declared(&self) -> AttrSeq {
        attr_view(self.attributes@)
    }

    /// The children of the element.
    pub closed spec fn children_view(&self) -> Children {
        self.children
    }

    /// The tag of the element.
    pub fn node_name(&self) -> (name: &str)
        ensures
            name@ == self.name_view(),
    {
        self.name.as_str()
    }

    /// The same view with the attribute `name` declared as `value`, after
    /// those declared before.
    pub fn attr(self, name: &str, value: &str) -> (view: Self)
        ensures
            view.name_view() == self.name_view(),
            view.declared() == self.declared().push((name@, value@)),
            view.children_view() == self.children_view(),
    {
        let mut view = self;
        view.attributes.push((name.to_owned(), value.to_owned()));
        assert(view.declared() =~= self.declared().push((name@, value@)));
        view
    }

    /// How far the first steps of a rebuild against `prev` come: the live
    /// node is replaced where the tag changed and kept where it did not, and
    /// its attributes are brought in line either way.
    pub open spec fn retagged(&self, prev: &Self, state: StateModel, pod: Pod, cx: CxView) -> Touched {
        if prev.name_view() != self.name_view() {
            replaced(HTML_NS@, self.name_view(), self.declared(), state, pod, cx)
        } else {
            retouched(self.declared(), state, pod, cx)
        }
    }
}

impl<T, A, Children> ViewMarker for CustomElement<T, A, Children> {

}

impl<T, A, Children: ViewSequence<T, A>> ViewNode<T, A> for CustomElement<T, A, Children> {
    type State = ElementState<Children::State>;

    open spec fn state_model(state: &ElementState<Children::State>) -> StateModel {
        element_model::<T, A, Children>(state)
    }

    open spec fn size(&self) -> nat {
        1 + self.children_view().seq_size()
    }

    open spec fn live(&self, state: StateModel) -> bool {
        element_live::<T, A, Children>(self.declared(), self.children_view(), state)
    }

    open spec fn ids(&self, state: StateModel) -> Set<Id> {
        element_ids::<T, A, Children>(self.children_view(), state)
    }

    open spec fn identified(&self, state: StateModel, bound: nat) -> bool {
        element_identified::<T, A, Children>(self.children_view(), state, bound)
    }

    open spec fn build_spec(&self, cx: CxView) -> BuiltNode {
        element_built::<T, A, Children>(
            HTML_NS@,
            self.name_view(),
            self.declared(),
            self.children_view(),
            cx,
        )
    }

    open spec fn rebuild_spec(
        &self,
        prev: &Self,
        id: Id,
        state: StateModel,
        pod: Pod,
        cx: CxView,
    ) -> RebuiltNode {
        element_rebuilt::<T, A, Children>(
            self.retagged(prev, state, pod, cx),
            self.declared(),
            self.children_view(),
            prev.children_view(),
            id,
            state,
        )
    }

    open spec fn message_spec(
        &self,
        id_path: Seq<Id>,
        state: StateModel,
        message: MessageView,
        app_state: T,
    ) -> Delivered<T, A> {
        element_delivered::<T, A, Children>(
            self.children_view(),
            id_path,
            state,
            message,
            app_state,
        )
    }

    fn build(&self, cx: &mut Cx) -> (built: (Id, ElementState<Children::State>, Pod)) {
        build_element_view::<T, A, Children>(
            cx,
            HTML_NS,
            self.node_name(),
            &self.attributes,
            &self.children,
        )
    }

    fn rebuild(
        &self,
        cx: &mut Cx,
        prev: &Self,
        id: &mut Id,
        state: &mut ElementState<Children::State>,
        element: &mut Pod,
    ) -> (flags: ChangeFlags)
        ensures
            !flags.contains(ChangeFlags::structure()),
    {
        let replace = prev.name != self.name;
        rebuild_element_view::<T, A, Children>(
            cx,
            replace,
            HTML_NS,
            self.node_name(),
            &self.attributes,
            &self.children,
            &prev.children,
            *id,
            state,
            element,
        )
    }

    fn message(
        &self,
        id_path: &[Id],
        state: &mut ElementState<Children::State>,
        message: &Message,
        app_state: &mut T,
    ) -> (result: MessageResult<A>) {
        self.children.seq_message(id_path, &mut state.children_states, message, app_state)
    }

    fn room_after(&self, room: u64) -> (left: Option<u64>) {
        if room >= 1 {
            self.children.seq_room_after(room - 1)
        } else {
            None
        }
    }

    proof fn lemma_build(&self, cx: CxView) {
        lemma_element_built::<T, A, Children>(
            HTML_NS@,
            self.name_view(),
            self.declared(),
            self.children_view(),
            cx,
        );
    }

    proof fn lemma_rebuild(&self, prev: &Self, id: Id, state: StateModel, pod: Pod, cx: CxView) {
        lemma_touched(HTML_NS@, self.name_view(), self.declared(), state, pod, cx);
        lemma_element_rebuilt::<T, A, Children>(
            self.retagged(prev, state, pod, cx),
            self.declared(),
            self.children_view(),
            prev.children_view(),
            id,
            state,
            cx,
        );
    }

    proof fn lemma_identified_grows(&self, state: StateModel, bound: nat, later: nat) {
        self.children_view().lemma_seq_identified_grows(*state->Element_children, bound, later);
    }

    proof fn lemma_ids_bounded(&self, state: StateModel, bound: nat) {
        self.children_view().lemma_seq_ids_bounded(*state->Element_children, bound);
    }

    proof fn lemma_build_identified(&self, cx: CxView) {
        lemma_element_built_identified::<T, A, Children>(
            HTML_NS@,
            self.name_view(),
            self.declared(),
            self.children_view(),
            cx,
        );
    }

    proof fn lemma_rebuild_identified(
        &self,
        prev: &Self,
        id: Id,
        state: StateModel,
        pod: Pod,
        cx: CxView,
    ) {
        lemma_touched(HTML_NS@, self.name_view(), self.declared(), state, pod, cx);
        lemma_element_rebuilt_identified::<T, A, Children>(
            self.retagged(prev, state, pod, cx),
            self.declared(),
            self.children_view(),
            prev.children_view(),
            id,
            state,
            cx,
        );
    }

    proof fn lemma_rebuild_same(&self, id: Id, state: StateModel, pod: Pod, cx: CxView) {
        lemma_element_rebuilt_same::<T, A, Children>(
            self.declared(),
            self.children_view(),
            id,
            state,
            pod,
            cx,
        );
    }
}

} // verus!
