use vstd::prelude::*;
use std::marker::PhantomData;
use crate::attributes::{attr_view, AttrSeq};
use crate::change_flags::ChangeFlags;
use crate::context::{Cx, CxView};
use crate::elements::{
    build_element_view, element_built, element_delivered, element_identified, element_ids,
    element_live,
    element_model, element_rebuilt, lemma_element_built, lemma_element_built_identified,
    lemma_element_rebuilt, lemma_element_rebuilt_identified, lemma_element_rebuilt_same,
    lemma_touched, rebuild_element_view, retouched, ElementState, HTML_NS, MATHML_NS, SVG_NS,
};
use crate::id::{Id, Pod};
use crate::message::{Message, MessageResult, MessageView};
use crate::sequence::ViewSequence;
use crate::view::{BuiltNode, Delivered, RebuiltNode, StateModel, ViewMarker, ViewNode};

verus! {

/// A kind of element: the namespace it lives in and the tag it goes by.
///
/// A type that stands for a kind of element makes the kind part of the view's
/// type, so that a view is only ever rebuilt against one of its own kind.
pub trait Tag {
    /// The namespace of the kind.
    spec fn namespace_view() -> Seq<char>;

    /// The tag of the kind.
    spec fn name_view() -> Seq<char>;

    /// The namespace of the kind.
    fn namespace() -> (namespace: &'static str)
        ensures
            namespace@ == Self::namespace_view(),
    ;

    /// The tag of the kind.
    fn name() -> (name: &'static str)
        ensures
            name@ == Self::name_view(),
    ;
}

/// `div` in the namespace of HTML.
pub struct DivTag;

/// `svg` in the namespace of SVG.
pub struct SvgTag;

/// `math` in the namespace of MathML.
pub struct MathTag;

impl Tag for DivTag {
    open spec fn namespace_view() -> Seq<char> {
        HTML_NS@
    }

    open spec fn name_view() -> Seq<char> {
        "div"@
    }

    fn namespace() -> (namespace: &'static str) {
        HTML_NS
    }

    fn name() -> (name: &'static str) {
        "div"
    }
}

impl Tag for SvgTag {
    open spec fn namespace_view() -> Seq<char> {
        SVG_NS@
    }

    open spec fn name_view() -> Seq<char> {
        "svg"@
    }

    fn namespace() -> (namespace: &'static str) {
        SVG_NS
    }

    fn name() -> (name: &'static str) {
        "svg"
    }
}

impl Tag for MathTag {
    open spec fn namespace_view() -> Seq<char> {
        MATHML_NS@
    }

    open spec fn name_view() -> Seq<char> {
        "math"@
    }

    fn namespace() -> (namespace: &'static str) {
        MATHML_NS
    }

    fn name() -> (name: &'static str) {
        "math"
    }
}

/// The view of an element whose kind is part of its type.
pub struct Element<Tg, T, A, Children> {
    attributes: Vec<(String, String)>,
    children: Children,
    phantom: PhantomData<(Tg, T, A)>,
}

/// The view of a `div` element.
pub type Div<T, A, Children> = Element<DivTag, T, A, Children>;

/// The view of an `svg` element.
pub type Svg<T, A, Children> = Element<SvgTag, T, A, Children>;

/// The view of a `math` element.
pub type Math<T, A, Children> = Element<MathTag, T, A, Children>;

/// The view of an element of the kind `Tg` with the children `children` and
/// no attributes.
pub fn element<Tg: Tag, T, A, Children: ViewSequence<T, A>>(children: Children) -> (view: Element<
    Tg,
    T,
    A,
    Children,
>)
    ensures
        view.declared() == Seq::<(Seq<char>, Seq<char>)>::empty(),
        view.children_view() == children,
{
    let view = Element { attributes: Vec::new(), children, phantom: PhantomData };
    assert(view.declared() =~= Seq::empty());
    view
}

/// The view of a `div` element with the children `children`.
pub fn div<T, A, Children: ViewSequence<T, A>>(children: Children) -> (view: Div<T, A, Children>)
    ensures
        view.declared() == Seq::<(Seq<char>, Seq<char>)>::empty(),
        view.children_view() == children,
{
    element(children)
}

/// The view of an `svg` element with the children `children`.
pub fn svg<T, A, Children: ViewSequence<T, A>>(children: Children) -> (view: Svg<T, A, Children>)
    ensures
        view.declared() == Seq::<(Seq<char>, Seq<char>)>::empty(),
        view.children_view() == children,
{
    element(children)
}

/// The view of a `math` element with the children `children`.
pub fn math<T, A, Children: ViewSequence<T, A>>(children: Children) -> (view: Math<T, A, Children>)
    ensures
        view.declared() == Seq::<(Seq<char>, Seq<char>)>::empty(),
        view.children_view() == children,
{
    element(children)
}

impl<Tg, T, A, Children> Element<Tg, T, A, Children> {
    /// The attributes as they were declared, in order. A name may occur more
    /// than once; the last declaration counts.
    pub closed spec fn declared(&self) -> AttrSeq {
        attr_view(self.attributes@)
    }

    /// The children of the element.
    pub closed spec fn children_view(&self) -> Children {
        self.children
    }

    /// The same view with the attribute `name` declared as `value`, after
    /// those declared before.
    pub fn attr(self, name: &str, value: &str) -> (view: Self)
        ensures
            view.declared() == self.declared().push((name@, value@)),
            view.children_view() == self.children_view(),
    {
        let mut view = self;
        view.attributes.push((name.to_owned(), value.to_owned()));
        assert(view.declared() =~= self.declared().push((name@, value@)));
        view
    }
}

impl<Tg, T, A, Children> ViewMarker for Element<Tg, T, A, Children> {

}

impl<Tg: Tag, T, A, Children: ViewSequence<T, A>> ViewNode<T, A> for Element<Tg, T, A, Children> {
    type State = ElementState<Children::State>;

    open spec fn state_model(state: &ElementState<Children::State>) -> StateModel {
        element_model::<T, A, Children>(state)
    }

    open spec fn size(&self) -> nat {
        1 + self.children_view().seq_size()
    }

    open spec fn live(&self, state: StateModel) -> bool {
        element_live::<T, A, Children>(self.declared(), self.children_view(), state)
    }

    open spec fn ids(&self, state: StateModel) -> Set<Id> {
        element_ids::<T, A, Children>(self.children_view(), state)
    }

    open spec fn identified(&self, state: StateModel, bound: nat) -> bool {
        element_identified::<T, A, Children>(self.children_view(), state, bound)
    }

    open spec fn build_spec(&self, cx: CxView) -> BuiltNode {
        element_built::<T, A, Children>(
            Tg::namespace_view(),
            Tg::name_view(),
            self.declared(),
            self.children_view(),
            cx,
        )
    }

    open spec fn rebuild_spec(
        &self,
        prev: &Self,
        id: Id,
        state: StateModel,
        pod: Pod,
        cx: CxView,
    ) -> RebuiltNode {
        element_rebuilt::<T, A, Children>(
            retouched(self.declared(), state, pod, cx),
            self.declared(),
            self.children_view(),
            prev.children_view(),
            id,
            state,
        )
    }

    open spec fn message_spec(
        &self,
        id_path: Seq<Id>,
        state: StateModel,
        message: MessageView,
        app_state: T,
    ) -> Delivered<T, A> {
        element_delivered::<T, A, Children>(
            self.children_view(),
            id_path,
            state,
            message,
            app_state,
        )
    }

    fn build(&self, cx: &mut Cx) -> (built: (Id, ElementState<Children::State>, Pod)) {
        build_element_view::<T, A, Children>(
            cx,
            Tg::namespace(),
            Tg::name(),
            &self.attributes,
            &self.children,
        )
    }

    fn rebuild(
        &self,
        cx: &mut Cx,
        prev: &Self,
        id: &mut Id,
        state: &mut ElementState<Children::State>,
        element: &mut Pod,
    ) -> (flags: ChangeFlags)
        ensures
            !flags.contains(ChangeFlags::structure()),
            *final(element) == *old(element),
    {
        rebuild_element_view::<T, A, Children>(
            cx,
            false,
            Tg::namespace(),
            Tg::name(),
            &self.attributes,
            &self.children,
            &prev.children,
            *id,
            state,
            element,
        )
    }

    fn message(
        &self,
        id_path: &[Id],
        state: &mut ElementState<Children::State>,
        message: &Message,
        app_state: &mut T,
    ) -> (result: MessageResult<A>) {
        self.children.seq_message(id_path, &mut state.children_states, message, app_state)
    }

    fn room_after(&self, room: u64) -> (left: Option<u64>) {
        if room >= 1 {
            self.children.seq_room_after(room - 1)
        } else {
            None
        }
    }

    proof fn lemma_build(&self, cx: CxView) {
        lemma_element_built::<T, A, Children>(
            Tg::namespace_view(),
            Tg::name_view(),
            self.declared(),
            self.children_view(),
            cx,
        );
    }

    proof fn lemma_rebuild(&self, prev: &Self, id: Id, state: StateModel, pod: Pod, cx: CxView) {
        lemma_touched(Tg::namespace_view(), Tg::name_view(), self.declared(), state, pod, cx);
        lemma_element_rebuilt::<T, A, Children>(
            retouched(self.declared(), state, pod, cx),
            self.declared(),
            self.children_view(),
            prev.children_view(),
            id,
            state,
            cx,
        );
    }

    proof fn lemma_identified_grows(&self, state: StateModel, bound: nat, later: nat) {
        self.children_view().lemma_seq_identified_grows(*state->Element_children, bound, later);
    }

    proof fn lemma_ids_bounded(&self, state: StateModel, bound: nat) {
        self.children_view().lemma_seq_ids_bounded(*state->Element_children, bound);
    }

    proof fn lemma_build_identified(&self, cx: CxView) {
        lemma_element_built_identified::<T, A, Children>(
            Tg::namespace_view(),
            Tg::name_view(),
            self.declared(),
            self.children_view(),
            cx,
        );
    }

    proof fn lemma_rebuild_identified(
        &self,
        prev: &Self,
        id: Id,
        state: StateModel,
        pod: Pod,
        cx: CxView,
    ) {
        lemma_touched(Tg::namespace_view(), Tg::name_view(), self.declared(), state, pod, cx);
        lemma_element_rebuilt_identified::<T, A, Children>(
            retouched(self.declared(), state, pod, cx),
            self.declared(),
            self.children_view(),
            prev.children_view(),
            id,
            state,
            cx,
        );
    }

    proof fn lemma_rebuild_same(&self, id: Id, state: StateModel, pod: Pod, cx: CxView) {
        lemma_element_rebuilt_same::<T, A, Children>(
            self.declared(),
            self.children_view(),
            id,
            state,
            pod,
            cx,
        );
    }
}

} // verus!
