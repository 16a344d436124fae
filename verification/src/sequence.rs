use vstd::prelude::*;
use crate::change_flags::ChangeFlags;
use crate::context::{Cx, CxView};
use crate::id::{Id, Pod};
use crate::message::{Message, MessageResult, MessageView};
use crate::vec_splice::VecSplice;
use crate::view::{advanced, lemma_advanced_twice, Built, Delivered, Rebuilt, StateModel, ViewNode};

verus! {

/// An ordered list of views, as the children of an element are.
///
/// A list is rebuilt place by place against the list that came before. The
/// live nodes of the old list are handed in through a [`VecSplice`], and the
/// pass leaves those of the new list there.
pub trait ViewSequence<T, A> {
    /// What is kept for this list from one rebuild to the next.
    type State;

    /// The state as contracts see it.
    spec fn seq_state_model(state: &Self::State) -> StateModel;

    /// How many identities, and how many node handles, building this list
    /// mints at most.
    spec fn seq_size(&self) -> nat;

    /// How many live nodes belong to this list in the state `state`.
    spec fn count_spec(&self, state: StateModel) -> nat;

    /// `state` is a state that building or rebuilding this list leaves.
    spec fn seq_live(&self, state: StateModel) -> bool;

    /// The identities that `state` holds: each names one view of this list
    /// or one below it. A path that leads into the list begins with one of
    /// them.
    spec fn seq_ids(&self, state: StateModel) -> Set<Id>;

    /// Every identity that `state` holds was minted before the counter
    /// stood at `bound`, and none of them names two views.
    spec fn seq_identified(&self, state: StateModel, bound: nat) -> bool;

    /// What [`build`](ViewSequence::seq_build) yields in the session `cx`.
    spec fn seq_build_spec(&self, cx: CxView) -> Built;

    /// What [`rebuild`](ViewSequence::seq_rebuild) yields in the session `cx`,
    /// where `prev` left `state` and the live nodes `pods`.
    spec fn seq_rebuild_spec(&self, prev: &Self, state: StateModel, pods: Seq<Pod>, cx: CxView) -> Rebuilt;

    /// What [`message`](ViewSequence::seq_message) yields.
    spec fn seq_message_spec(
        &self,
        id_path: Seq<Id>,
        state: StateModel,
        message: MessageView,
        app_state: T,
    ) -> Delivered<T, A>;

    /// Builds each view of the list in order and puts their live nodes at the
    /// end of `elements`.
    fn seq_build(&self, cx: &mut Cx, elements: &mut Vec<Pod>) -> (state: Self::State)
        requires
            old(cx)@.has_room(self.seq_size()),
        ensures
            Self::seq_state_model(&state) == self.seq_build_spec(old(cx)@).state,
            final(elements)@ == old(elements)@ + self.seq_build_spec(old(cx)@).pods,
            final(cx)@ == self.seq_build_spec(old(cx)@).cx,
    ;

    /// Brings the live nodes that `prev` left in line with this list. The
    /// nodes of `prev` are the next ones that `elements` has to decide on; the
    /// pass is done with those of this list when the call returns.
    fn seq_rebuild(
        &self,
        cx: &mut Cx,
        prev: &Self,
        state: &mut Self::State,
        elements: &mut VecSplice<Pod>,
    ) -> (flags: ChangeFlags)
        requires
            prev.seq_live(Self::seq_state_model(old(state))),
            old(elements).wf(),
            prev.count_spec(Self::seq_state_model(old(state))) <= old(elements).pending().len(),
            old(elements).pending().len() <= usize::MAX,
            old(cx)@.has_room(self.seq_size()),
        ensures
            ({
                let n = prev.count_spec(Self::seq_state_model(old(state)));
                let out = self.seq_rebuild_spec(
                    prev,
                    Self::seq_state_model(old(state)),
                    old(elements).pending().take(n as int),
                    old(cx)@,
                );
                &&& Self::seq_state_model(final(state)) == out.state
                &&& final(elements).wf()
                &&& final(elements).done() == old(elements).done() + out.pods
                &&& final(elements).pending() == old(elements).pending().skip(n as int)
                &&& final(cx)@ == out.cx
                &&& flags == out.flags
            }),
    ;

    /// Offers `message` to each view of the list in turn until one of them
    /// takes it.
    fn seq_message(
        &self,
        id_path: &[Id],
        state: &mut Self::State,
        message: &Message,
        app_state: &mut T,
    ) -> (result: MessageResult<A>)
        ensures
            ({
                let out = self.seq_message_spec(
                    id_path@,
                    Self::seq_state_model(old(state)),
                    message@,
                    *old(app_state),
                );
                &&& result == out.result
                &&& Self::seq_state_model(final(state)) == out.state
                &&& *final(app_state) == out.app_state
            }),
    ;

    /// How many live nodes belong to this list.
    fn count(&self, state: &Self::State) -> (n: usize)
        requires
            self.seq_live(Self::seq_state_model(state)),
            self.count_spec(Self::seq_state_model(state)) <= usize::MAX,
        ensures
            n == self.count_spec(Self::seq_state_model(state)),
    ;

    /// What is left of `room` identities and node handles once this list is
    /// built, or nothing where the list needs more than `room`.
    fn seq_room_after(&self, room: u64) -> (left: Option<u64>)
        ensures
            match left {
                Some(rest) => self.seq_size() + rest == room,
                None => self.seq_size() > room,
            },
    ;

    /// Building leaves a state of this list with one live node for each that
    /// the state counts, and moves the session on by no more than the list's
    /// size.
    proof fn lemma_seq_build(&self, cx: CxView)
        ensures
            self.seq_live(self.seq_build_spec(cx).state),
            self.count_spec(self.seq_build_spec(cx).state) == self.seq_build_spec(cx).pods.len(),
            advanced(cx, self.seq_build_spec(cx).cx, self.seq_size()),
    ;

    /// Rebuilding leaves a state of this list with one live node for each
    /// that the state counts, and moves the session on by no more than the
    /// list's size.
    proof fn lemma_seq_rebuild(&self, prev: &Self, state: StateModel, pods: Seq<Pod>, cx: CxView)
        requires
            prev.seq_live(state),
            pods.len() == prev.count_spec(state),
        ensures
            self.seq_live(self.seq_rebuild_spec(prev, state, pods, cx).state),
            self.count_spec(self.seq_rebuild_spec(prev, state, pods, cx).state) == self.seq_rebuild_spec(
                prev,
                state,
                pods,
                cx,
            ).pods.len(),
            advanced(cx, self.seq_rebuild_spec(prev, state, pods, cx).cx, self.seq_size()),
    ;

    /// What was minted before a counter value was minted before any later
    /// one.
    proof fn lemma_seq_identified_grows(&self, state: StateModel, bound: nat, later: nat)
        requires
            self.seq_identified(state, bound),
            bound <= later,
        ensures
            self.seq_identified(state, later),
    ;

    /// The identities that a state holds were minted before the bound that
    /// the state keeps to.
    proof fn lemma_seq_ids_bounded(&self, state: StateModel, bound: nat)
        requires
            self.seq_identified(state, bound),
        ensures
            forall|id: Id| #[trigger] self.seq_ids(state).contains(id) ==> id.0 < bound,
    ;

    /// Building mints every identity of the list in the course of the build.
    proof fn lemma_seq_build_identified(&self, cx: CxView)
        requires
            cx.has_room(self.seq_size()),
        ensures
            self.seq_identified(self.seq_build_spec(cx).state, self.seq_build_spec(cx).cx.next_id),
            forall|id: Id| #[trigger]
                self.seq_ids(self.seq_build_spec(cx).state).contains(id) ==> cx.next_id <= id.0,
    ;

    /// Rebuilding leaves the identities of the list in order, and each of
    /// them either was there before or is newly minted.
    proof fn lemma_seq_rebuild_identified(
        &self,
        prev: &Self,
        state: StateModel,
        pods: Seq<Pod>,
        cx: CxView,
    )
        requires
            prev.seq_live(state),
            pods.len() == prev.count_spec(state),
            prev.seq_identified(state, cx.next_id),
            cx.has_room(self.seq_size()),
        ensures
            self.seq_identified(
                self.seq_rebuild_spec(prev, state, pods, cx).state,
                self.seq_rebuild_spec(prev, state, pods, cx).cx.next_id,
            ),
            forall|id: Id| #[trigger]
                self.seq_ids(self.seq_rebuild_spec(prev, state, pods, cx).state).contains(id)
                    ==> prev.seq_ids(state).contains(id) || cx.next_id <= id.0,
    ;

    /// A message whose path is empty, or begins with an identity that the
    /// state does not hold, finds nobody: it is stale, and neither the state
    /// nor the application's state changes.
    proof fn lemma_seq_message_stale(
        &self,
        id_path: Seq<Id>,
        state: StateModel,
        message: MessageView,
        app_state: T,
    )
        requires
            self.seq_live(state),
            id_path.len() == 0 || !self.seq_ids(state).contains(id_path[0]),
        ensures
            self.seq_message_spec(id_path, state, message, app_state) == (Delivered::<T, A> {
                result: MessageResult::Stale,
                state,
                app_state,
            }),
    ;

    /// Rebuilding a list against itself changes nothing and records nothing.
    proof fn lemma_seq_rebuild_same(&self, state: StateModel, pods: Seq<Pod>, cx: CxView)
        requires
            self.seq_live(state),
            pods.len() == self.count_spec(state),
        ensures
            self.seq_rebuild_spec(self, state, pods, cx) == (Rebuilt {
                state,
                pods,
                cx,
                flags: ChangeFlags::empty(),
            }),
    ;
}

/// A view is a list of one view. Its state is the view's own state and the
/// identity that the view was built under.
impl<T, A, V: ViewNode<T, A>> ViewSequence<T, A> for V {
    type State = (V::State, Id);

    open spec fn seq_state_model(state: &(V::State, Id)) -> StateModel {
        StateModel::Slot { id: state.1, inner: Box::new(V::state_model(&state.0)) }
    }

    open spec fn seq_size(&self) -> nat {
        ViewNode::size(self)
    }

    open spec fn count_spec(&self, state: StateModel) -> nat {
        1
    }

    open spec fn seq_live(&self, state: StateModel) -> bool {
        state matches StateModel::Slot { inner, .. } && ViewNode::live(self, *inner)
    }

    open spec fn seq_ids(&self, state: StateModel) -> Set<Id> {
        ViewNode::ids(self, *state->Slot_inner).insert(state->Slot_id)
    }

    open spec fn seq_identified(&self, state: StateModel, bound: nat) -> bool {
        &&& state matches StateModel::Slot { id, inner }
        &&& id.0 < bound
        &&& ViewNode::identified(self, *inner, bound)
        &&& !ViewNode::ids(self, *inner).contains(id)
    }

    open spec fn seq_build_spec(&self, cx: CxView) -> Built {
        let built = ViewNode::build_spec(self, cx);
        Built {
            state: StateModel::Slot { id: built.id, inner: Box::new(built.state) },
            pods: seq![built.pod],
            cx: built.cx,
        }
    }

    open spec fn seq_rebuild_spec(&self, prev: &Self, state: StateModel, pods: Seq<Pod>, cx: CxView) -> Rebuilt {
        let out = ViewNode::rebuild_spec(
            self,
            prev,
            state->Slot_id,
            *state->Slot_inner,
            pods[0],
            cx,
        );
        Rebuilt {
            state: StateModel::Slot { id: out.id, inner: Box::new(out.state) },
            pods: seq![out.pod],
            cx: out.cx,
            flags: out.flags,
        }
    }

    open spec fn seq_message_spec(
        &self,
        id_path: Seq<Id>,
        state: StateModel,
        message: MessageView,
        app_state: T,
    ) -> Delivered<T, A> {
        if id_path.len() > 0 && state is Slot && id_path[0] == state->Slot_id {
            let out = ViewNode::message_spec(
                self,
                id_path.skip(1),
                *state->Slot_inner,
                message,
                app_state,
            );
            Delivered {
                result: out.result,
                state: StateModel::Slot { id: state->Slot_id, inner: Box::new(out.state) },
                app_state: out.app_state,
            }
        } else {
            Delivered { result: MessageResult::Stale, state, app_state }
        }
    }

    fn seq_build(&self, cx: &mut Cx, elements: &mut Vec<Pod>) -> (state: (V::State, Id)) {
        let (id, state, element) = ViewNode::build(self, cx);
        elements.push(element);
        assert(elements@ =~= old(elements)@ + seq![element]);
        (state, id)
    }

    fn seq_rebuild(
        &self,
        cx: &mut Cx,
        prev: &Self,
        state: &mut (V::State, Id),
        elements: &mut VecSplice<Pod>,
    ) -> (flags: ChangeFlags) {
        assert(old(elements).pending().take(1)[0] == old(elements).pending()[0]);
        let element = elements.mutate();
        let flags = ViewNode::rebuild(self, cx, prev, &mut state.1, &mut state.0, element);
        assert(old(elements).done().push(*element) =~= old(elements).done() + seq![*element]);
        flags
    }

    fn seq_message(
        &self,
        id_path: &[Id],
        state: &mut (V::State, Id),
        message: &Message,
        app_state: &mut T,
    ) -> (result: MessageResult<A>) {
        if id_path.len() > 0 && id_path[0] == state.1 {
            let rest = vstd::slice::slice_subrange(id_path, 1, id_path.len());
            ViewNode::message(self, rest, &mut state.0, message, app_state)
        } else {
            MessageResult::Stale
        }
    }

    fn count(&self, state: &(V::State, Id)) -> (n: usize) {
        1
    }

    fn seq_room_after(&self, room: u64) -> (left: Option<u64>) {
        ViewNode::room_after(self, room)
    }

    proof fn lemma_seq_build(&self, cx: CxView) {
        ViewNode::lemma_build(self, cx);
    }

    proof fn lemma_seq_rebuild(&self, prev: &Self, state: StateModel, pods: Seq<Pod>, cx: CxView) {
        ViewNode::lemma_rebuild(self, prev, state->Slot_id, *state->Slot_inner, pods[0], cx);
    }

    proof fn lemma_seq_identified_grows(&self, state: StateModel, bound: nat, later: nat) {
        ViewNode::lemma_identified_grows(self, *state->Slot_inner, bound, later);
    }

    proof fn lemma_seq_ids_bounded(&self, state: StateModel, bound: nat) {
        ViewNode::lemma_ids_bounded(self, *state->Slot_inner, bound);
    }

    proof fn lemma_seq_build_identified(&self, cx: CxView) {
        ViewNode::lemma_build_identified(self, cx);
    }

    proof fn lemma_seq_rebuild_identified(
        &self,
        prev: &Self,
        state: StateModel,
        pods: Seq<Pod>,
        cx: CxView,
    ) {
        ViewNode::lemma_rebuild(self, prev, state->Slot_id, *state->Slot_inner, pods[0], cx);
        ViewNode::lemma_rebuild_identified(
            self,
            prev,
            state->Slot_id,
            *state->Slot_inner,
            pods[0],
            cx,
        );
    }

    proof fn lemma_seq_message_stale(
        &self,
        id_path: Seq<Id>,
        state: StateModel,
        message: MessageView,
        app_state: T,
    ) {
    }

    proof fn lemma_seq_rebuild_same(&self, state: StateModel, pods: Seq<Pod>, cx: CxView) {
        ViewNode::lemma_rebuild_same(self, state->Slot_id, *state->Slot_inner, pods[0], cx);
        assert(pods =~= seq![pods[0]]);
    }
}

/// The list without views.
impl<T, A> ViewSequence<T, A> for () {
    type State = ();

    open spec fn seq_state_model(state: &()) -> StateModel {
        StateModel::Unit
    }

    open spec fn seq_size(&self) -> nat {
        0
    }

    open spec fn count_spec(&self, state: StateModel) -> nat {
        0
    }

    open spec fn seq_live(&self, state: StateModel) -> bool {
        state == StateModel::Unit
    }

    open spec fn seq_ids(&self, state: StateModel) -> Set<Id> {
        Set::empty()
    }

    open spec fn seq_identified(&self, state: StateModel, bound: nat) -> bool {
        true
    }

    open spec fn seq_build_spec(&self, cx: CxView) -> Built {
        Built { state: StateModel::Unit, pods: Seq::empty(), cx }
    }

    open spec fn seq_rebuild_spec(&self, prev: &Self, state: StateModel, pods: Seq<Pod>, cx: CxView) -> Rebuilt {
        Rebuilt { state: StateModel::Unit, pods: Seq::empty(), cx, flags: ChangeFlags::empty() }
    }

    open spec fn seq_message_spec(
        &self,
        id_path: Seq<Id>,
        state: StateModel,
        message: MessageView,
        app_state: T,
    ) -> Delivered<T, A> {
        Delivered { result: MessageResult::Stale, state: StateModel::Unit, app_state }
    }

    fn seq_build(&self, cx: &mut Cx, elements: &mut Vec<Pod>) -> (state: ()) {
        assert(elements@ =~= old(elements)@ + Seq::<Pod>::empty());
        ()
    }

    fn seq_rebuild(&self, cx: &mut Cx, prev: &Self, state: &mut (), elements: &mut VecSplice<Pod>) -> (flags:
        ChangeFlags) {
        assert(elements.done() =~= old(elements).done() + Seq::<Pod>::empty());
        assert(elements.pending() =~= old(elements).pending().skip(0));
        ChangeFlags::empty()
    }

    fn seq_message(&self, id_path: &[Id], state: &mut (), message: &Message, app_state: &mut T) -> (result:
        MessageResult<A>) {
        MessageResult::Stale
    }

    fn count(&self, state: &()) -> (n: usize) {
        0
    }

    fn seq_room_after(&self, room: u64) -> (left: Option<u64>) {
        Some(room)
    }

    proof fn lemma_seq_build(&self, cx: CxView) {
        assert(cx.log.take(cx.log.len() as int) =~= cx.log);
    }

    proof fn lemma_seq_rebuild(&self, prev: &Self, state: StateModel, pods: Seq<Pod>, cx: CxView) {
        assert(cx.log.take(cx.log.len() as int) =~= cx.log);
    }

    proof fn lemma_seq_identified_grows(&self, state: StateModel, bound: nat, later: nat) {
    }

    proof fn lemma_seq_ids_bounded(&self, state: StateModel, bound: nat) {
    }

    proof fn lemma_seq_build_identified(&self, cx: CxView) {
    }

    proof fn lemma_seq_rebuild_identified(
        &self,
        prev: &Self,
        state: StateModel,
        pods: Seq<Pod>,
        cx: CxView,
    ) {
    }

    proof fn lemma_seq_message_stale(
        &self,
        id_path: Seq<Id>,
        state: StateModel,
        message: MessageView,
        app_state: T,
    ) {
    }

    proof fn lemma_seq_rebuild_same(&self, state: StateModel, pods: Seq<Pod>, cx: CxView) {
        assert(pods =~= Seq::<Pod>::empty());
    }
}

/// Two lists, one after the other.
impl<T, A, X: ViewSequence<T, A>, Y: ViewSequence<T, A>> ViewSequence<T, A> for (X, Y) {
    type State = (X::State, Y::State);

    open spec fn seq_state_model(state: &(X::State, Y::State)) -> StateModel {
        StateModel::Pair(
            Box::new(X::seq_state_model(&state.0)),
            Box::new(Y::seq_state_model(&state.1)),
        )
    }

    open spec fn seq_size(&self) -> nat {
        self.0.seq_size() + self.1.seq_size()
    }

    open spec fn count_spec(&self, state: StateModel) -> nat {
        self.0.count_spec(*state->Pair_0) + self.1.count_spec(*state->Pair_1)
    }

    open spec fn seq_live(&self, state: StateModel) -> bool {
        state matches StateModel::Pair(first, second) && self.0.seq_live(*first)
            && self.1.seq_live(*second)
    }

    open spec fn seq_ids(&self, state: StateModel) -> Set<Id> {
        self.0.seq_ids(*state->Pair_0).union(self.1.seq_ids(*state->Pair_1))
    }

    open spec fn seq_identified(&self, state: StateModel, bound: nat) -> bool {
        &&& state matches StateModel::Pair(first, second)
        &&& self.0.seq_identified(*first, bound)
        &&& self.1.seq_identified(*second, bound)
        &&& self.0.seq_ids(*first).disjoint(self.1.seq_ids(*second))
    }

    open spec fn seq_build_spec(&self, cx: CxView) -> Built {
        let first = self.0.seq_build_spec(cx);
        let second = self.1.seq_build_spec(first.cx);
        Built {
            state: StateModel::Pair(Box::new(first.state), Box::new(second.state)),
            pods: first.pods + second.pods,
            cx: second.cx,
        }
    }

    open spec fn seq_rebuild_spec(&self, prev: &Self, state: StateModel, pods: Seq<Pod>, cx: CxView) -> Rebuilt {
        let n = prev.0.count_spec(*state->Pair_0);
        let first = self.0.seq_rebuild_spec(&prev.0, *state->Pair_0, pods.take(n as int), cx);
        let second = self.1.seq_rebuild_spec(
            &prev.1,
            *state->Pair_1,
            pods.skip(n as int),
            first.cx,
        );
        Rebuilt {
            state: StateModel::Pair(Box::new(first.state), Box::new(second.state)),
            pods: first.pods + second.pods,
            cx: second.cx,
            flags: first.flags.union(second.flags),
        }
    }

    open spec fn seq_message_spec(
        &self,
        id_path: Seq<Id>,
        state: StateModel,
        message: MessageView,
        app_state: T,
    ) -> Delivered<T, A> {
        let first = self.0.seq_message_spec(id_path, *state->Pair_0, message, app_state);
        if first.result is Stale {
            let second = self.1.seq_message_spec(
                id_path,
                *state->Pair_1,
                message,
                first.app_state,
            );
            Delivered {
                result: second.result,
                state: StateModel::Pair(Box::new(first.state), Box::new(second.state)),
                app_state: second.app_state,
            }
        } else {
            Delivered {
                result: first.result,
                state: StateModel::Pair(Box::new(first.state), state->Pair_1),
                app_state: first.app_state,
            }
        }
    }

    fn seq_build(&self, cx: &mut Cx, elements: &mut Vec<Pod>) -> (state: (X::State, Y::State)) {
        proof {
            self.0.lemma_seq_build(cx@);
        }
        let first = self.0.seq_build(cx, elements);
        let second = self.1.seq_build(cx, elements);
        assert(elements@ =~= old(elements)@ + self.seq_build_spec(old(cx)@).pods);
        (first, second)
    }

    fn seq_rebuild(
        &self,
        cx: &mut Cx,
        prev: &Self,
        state: &mut (X::State, Y::State),
        elements: &mut VecSplice<Pod>,
    ) -> (flags: ChangeFlags) {
        let ghost n = prev.0.count_spec(X::seq_state_model(&state.0));
        let ghost m = prev.1.count_spec(Y::seq_state_model(&state.1));
        let ghost pods = elements.pending().take((n + m) as int);
        proof {
            self.0.lemma_seq_rebuild(
                &prev.0,
                X::seq_state_model(&state.0),
                pods.take(n as int),
                cx@,
            );
            assert(elements.pending().take(n as int) =~= pods.take(n as int));
            assert(elements.pending().skip(n as int).take(m as int) =~= pods.skip(n as int));
            assert(elements.pending().skip(n as int).skip(m as int) =~= elements.pending().skip(
                (n + m) as int,
            ));
        }
        let first = self.0.seq_rebuild(cx, &prev.0, &mut state.0, elements);
        let second = self.1.seq_rebuild(cx, &prev.1, &mut state.1, elements);
        assert(elements.done() =~= old(elements).done() + self.seq_rebuild_spec(
            prev,
            Self::seq_state_model(old(state)),
            pods,
            old(cx)@,
        ).pods);
        first.union(second)
    }

    fn seq_message(
        &self,
        id_path: &[Id],
        state: &mut (X::State, Y::State),
        message: &Message,
        app_state: &mut T,
    ) -> (result: MessageResult<A>) {
        let first = self.0.seq_message(id_path, &mut state.0, message, app_state);
        match first {
            MessageResult::Stale => self.1.seq_message(id_path, &mut state.1, message, app_state),
            taken => taken,
        }
    }

    fn count(&self, state: &(X::State, Y::State)) -> (n: usize) {
        let first = self.0.count(&state.0);
        let second = self.1.count(&state.1);
        first + second
    }

    fn seq_room_after(&self, room: u64) -> (left: Option<u64>) {
        match self.0.seq_room_after(room) {
            Some(rest) => self.1.seq_room_after(rest),
            None => None,
        }
    }

    proof fn lemma_seq_build(&self, cx: CxView) {
        let first = self.0.seq_build_spec(cx);
        self.0.lemma_seq_build(cx);
        self.1.lemma_seq_build(first.cx);
        lemma_advanced_twice(
            cx,
            first.cx,
            self.1.seq_build_spec(first.cx).cx,
            self.0.seq_size(),
            self.1.seq_size(),
        );
    }

    proof fn lemma_seq_rebuild(&self, prev: &Self, state: StateModel, pods: Seq<Pod>, cx: CxView) {
        let n = prev.0.count_spec(*state->Pair_0);
        let first = self.0.seq_rebuild_spec(&prev.0, *state->Pair_0, pods.take(n as int), cx);
        self.0.lemma_seq_rebuild(&prev.0, *state->Pair_0, pods.take(n as int), cx);
        self.1.lemma_seq_rebuild(&prev.1, *state->Pair_1, pods.skip(n as int), first.cx);
        lemma_advanced_twice(
            cx,
            first.cx,
            self.1.seq_rebuild_spec(&prev.1, *state->Pair_1, pods.skip(n as int), first.cx).cx,
            self.0.seq_size(),
            self.1.seq_size(),
        );
    }

    proof fn lemma_seq_identified_grows(&self, state: StateModel, bound: nat, later: nat) {
        self.0.lemma_seq_identified_grows(*state->Pair_0, bound, later);
        self.1.lemma_seq_identified_grows(*state->Pair_1, bound, later);
    }

    proof fn lemma_seq_ids_bounded(&self, state: StateModel, bound: nat) {
        self.0.lemma_seq_ids_bounded(*state->Pair_0, bound);
        self.1.lemma_seq_ids_bounded(*state->Pair_1, bound);
    }

    proof fn lemma_seq_build_identified(&self, cx: CxView) {
        let first = self.0.seq_build_spec(cx);
        let second = self.1.seq_build_spec(first.cx);
        self.0.lemma_seq_build(cx);
        self.1.lemma_seq_build(first.cx);
        self.0.lemma_seq_build_identified(cx);
        self.1.lemma_seq_build_identified(first.cx);
        self.0.lemma_seq_identified_grows(first.state, first.cx.next_id, second.cx.next_id);
        self.0.lemma_seq_ids_bounded(first.state, first.cx.next_id);
    }

    proof fn lemma_seq_rebuild_identified(
        &self,
        prev: &Self,
        state: StateModel,
        pods: Seq<Pod>,
        cx: CxView,
    ) {
        let n = prev.0.count_spec(*state->Pair_0);
        let first = self.0.seq_rebuild_spec(&prev.0, *state->Pair_0, pods.take(n as int), cx);
        let second = self.1.seq_rebuild_spec(
            &prev.1,
            *state->Pair_1,
            pods.skip(n as int),
            first.cx,
        );
        self.0.lemma_seq_rebuild(&prev.0, *state->Pair_0, pods.take(n as int), cx);
        self.1.lemma_seq_rebuild(&prev.1, *state->Pair_1, pods.skip(n as int), first.cx);
        self.0.lemma_seq_rebuild_identified(&prev.0, *state->Pair_0, pods.take(n as int), cx);
        prev.1.lemma_seq_identified_grows(*state->Pair_1, cx.next_id, first.cx.next_id);
        self.1.lemma_seq_rebuild_identified(
            &prev.1,
            *state->Pair_1,
            pods.skip(n as int),
            first.cx,
        );
        self.0.lemma_seq_identified_grows(first.state, first.cx.next_id, second.cx.next_id);
        self.0.lemma_seq_ids_bounded(first.state, first.cx.next_id);
        prev.0.lemma_seq_ids_bounded(*state->Pair_0, cx.next_id);
        prev.1.lemma_seq_ids_bounded(*state->Pair_1, cx.next_id);
    }

    proof fn lemma_seq_message_stale(
        &self,
        id_path: Seq<Id>,
        state: StateModel,
        message: MessageView,
        app_state: T,
    ) {
        self.0.lemma_seq_message_stale(id_path, *state->Pair_0, message, app_state);
        self.1.lemma_seq_message_stale(id_path, *state->Pair_1, message, app_state);
    }

    proof fn lemma_seq_rebuild_same(&self, state: StateModel, pods: Seq<Pod>, cx: CxView) {
        let n = self.0.count_spec(*state->Pair_0);
        self.0.lemma_seq_rebuild_same(*state->Pair_0, pods.take(n as int), cx);
        self.1.lemma_seq_rebuild_same(*state->Pair_1, pods.skip(n as int), cx);
        assert(pods.take(n as int) + pods.skip(n as int) =~= pods);
        ChangeFlags::lemma_union_unit(ChangeFlags::empty());
    }
}

} // verus!
