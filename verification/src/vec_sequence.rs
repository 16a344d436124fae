use vstd::prelude::*;
use crate::change_flags::ChangeFlags;
use crate::context::{Cx, CxView};
use crate::id::{Id, Pod};
use crate::message::{Message, MessageResult, MessageView};
use crate::sequence::ViewSequence;
use crate::vec_splice::VecSplice;
use crate::view::{advanced, lemma_advanced_twice, Built, Delivered, Rebuilt, StateModel};

verus! {

/// What building some members of a list yields.
pub struct BuiltList {
    pub states: Seq<StateModel>,
    pub pods: Seq<Pod>,
    pub cx: CxView,
}

/// What rebuilding the first members of a list yields.
pub struct RebuiltList {
    pub states: Seq<StateModel>,
    pub pods: Seq<Pod>,
    pub cx: CxView,
    pub flags: ChangeFlags,
}

/// What offering a message to the first members of a list yields.
pub struct DeliveredList<T, A> {
    pub result: MessageResult<A>,
    pub states: Seq<StateModel>,
    pub app_state: T,
}

/// The states of the members of a list as contracts see them.
pub open spec fn models<T, A, VT: ViewSequence<T, A>>(states: Seq<VT::State>) -> Seq<StateModel> {
    states.map_values(|s: VT::State| VT::seq_state_model(&s))
}

/// The sizes of the first `n` of `views`, added up.
pub open spec fn size_upto<T, A, VT: ViewSequence<T, A>>(views: Seq<VT>, n: nat) -> nat
    decreases n,
{
    if n == 0 {
        0
    } else {
        size_upto::<T, A, VT>(views, (n - 1) as nat) + views[n - 1].seq_size()
    }
}

/// How many live nodes belong to the first `n` of `views`, each in the state
/// that `states` has in its place.
pub open spec fn count_upto<T, A, VT: ViewSequence<T, A>>(
    views: Seq<VT>,
    states: Seq<StateModel>,
    n: nat,
) -> nat
    decreases n,
{
    if n == 0 {
        0
    } else {
        count_upto::<T, A, VT>(views, states, (n - 1) as nat) + views[n - 1].count_spec(
            states[n - 1],
        )
    }
}

/// How many live nodes belong to the views in the places `from` up to `to`,
/// each in the state that `states` has in its place.
pub open spec fn count_from<T, A, VT: ViewSequence<T, A>>(
    views: Seq<VT>,
    states: Seq<StateModel>,
    from: nat,
    to: nat,
) -> nat
    decreases to,
{
    if to <= from {
        0
    } else {
        count_from::<T, A, VT>(views, states, from, (to - 1) as nat) + views[to - 1].count_spec(
            states[to - 1],
        )
    }
}

/// The first `n` of `states` are states of the views in their places.
pub open spec fn live_upto<T, A, VT: ViewSequence<T, A>>(
    views: Seq<VT>,
    states: Seq<StateModel>,
    n: nat,
) -> bool {
    forall|i: int| 0 <= i < n ==> (#[trigger] views[i]).seq_live(states[i])
}

/// The identities that the state of the member in place `j` holds.
pub open spec fn ids_at<T, A, VT: ViewSequence<T, A>>(
    views: Seq<VT>,
    states: Seq<StateModel>,
    j: int,
) -> Set<Id> {
    views[j].seq_ids(states[j])
}

/// The state of the member in place `j` keeps to `bound`.
pub open spec fn identified_at<T, A, VT: ViewSequence<T, A>>(
    views: Seq<VT>,
    states: Seq<StateModel>,
    bound: nat,
    j: int,
) -> bool {
    views[j].seq_identified(states[j], bound)
}

/// The states of the first `n` members keep to `bound`, and no identity is
/// held by two of them.
pub open spec fn identified_upto<T, A, VT: ViewSequence<T, A>>(
    views: Seq<VT>,
    states: Seq<StateModel>,
    bound: nat,
    n: nat,
) -> bool {
    &&& forall|j: int| 0 <= j < n ==> #[trigger] identified_at::<T, A, VT>(views, states, bound, j)
    &&& forall|j: int, k: int, id: Id|
        0 <= j < k < n && #[trigger] ids_at::<T, A, VT>(views, states, j).contains(id)
            ==> !#[trigger] ids_at::<T, A, VT>(views, states, k).contains(id)
}

/// What building the views in the places `from` up to `to`, in order, yields
/// in the session `cx`.
pub open spec fn build_upto<T, A, VT: ViewSequence<T, A>>(
    views: Seq<VT>,
    cx: CxView,
    from: nat,
    to: nat,
) -> BuiltList
    decreases to,
{
    if to <= from {
        BuiltList { states: Seq::empty(), pods: Seq::empty(), cx }
    } else {
        let before = build_upto::<T, A, VT>(views, cx, from, (to - 1) as nat);
        let last = views[to - 1].seq_build_spec(before.cx);
        BuiltList {
            states: before.states.push(last.state),
            pods: before.pods + last.pods,
            cx: last.cx,
        }
    }
}

/// What rebuilding the first `n` of `views`, each against the one of `prevs`
/// in its place, yields in the session `cx`. `states` are the states that
/// `prevs` left and `pods` their live nodes.
pub open spec fn rebuild_upto<T, A, VT: ViewSequence<T, A>>(
    views: Seq<VT>,
    prevs: Seq<VT>,
    states: Seq<StateModel>,
    pods: Seq<Pod>,
    cx: CxView,
    n: nat,
) -> RebuiltList
    decreases n,
{
    if n == 0 {
        RebuiltList { states: Seq::empty(), pods: Seq::empty(), cx, flags: ChangeFlags::empty() }
    } else {
        let before = rebuild_upto::<T, A, VT>(views, prevs, states, pods, cx, (n - 1) as nat);
        let from = count_upto::<T, A, VT>(prevs, states, (n - 1) as nat);
        let own = prevs[n - 1].count_spec(states[n - 1]);
        let last = views[n - 1].seq_rebuild_spec(
            &prevs[n - 1],
            states[n - 1],
            pods.subrange(from as int, (from + own) as int),
            before.cx,
        );
        RebuiltList {
            states: before.states.push(last.state),
            pods: before.pods + last.pods,
            cx: last.cx,
            flags: before.flags.union(last.flags),
        }
    }
}

/// What offering a message to the first `n` of `views` in turn yields: the
/// answer of the first that does not find it stale.
pub open spec fn message_upto<T, A, VT: ViewSequence<T, A>>(
    views: Seq<VT>,
    id_path: Seq<Id>,
    states: Seq<StateModel>,
    message: MessageView,
    app_state: T,
    n: nat,
) -> DeliveredList<T, A>
    decreases n,
{
    if n == 0 {
        DeliveredList { result: MessageResult::Stale, states, app_state }
    } else {
        let before = message_upto::<T, A, VT>(
            views,
            id_path,
            states,
            message,
            app_state,
            (n - 1) as nat,
        );
        if before.result is Stale {
            let last = views[n - 1].seq_message_spec(
                id_path,
                before.states[n - 1],
                message,
                before.app_state,
            );
            DeliveredList {
                result: last.result,
                states: before.states.update(n - 1, last.state),
                app_state: last.app_state,
            }
        } else {
            before
        }
    }
}

/// The sizes of fewer members add up to no more.
pub proof fn lemma_size_upto_grows<T, A, VT: ViewSequence<T, A>>(views: Seq<VT>, i: nat, n: nat)
    requires
        i <= n,
    ensures
        size_upto::<T, A, VT>(views, i) <= size_upto::<T, A, VT>(views, n),
    decreases n,
{
    if i < n {
        lemma_size_upto_grows::<T, A, VT>(views, i, (n - 1) as nat);
    }
}

/// Fewer members have no more live nodes.
pub proof fn lemma_count_upto_grows<T, A, VT: ViewSequence<T, A>>(
    views: Seq<VT>,
    states: Seq<StateModel>,
    i: nat,
    n: nat,
)
    requires
        i <= n,
    ensures
        count_upto::<T, A, VT>(views, states, i) <= count_upto::<T, A, VT>(views, states, n),
    decreases n,
{
    if i < n {
        lemma_count_upto_grows::<T, A, VT>(views, states, i, (n - 1) as nat);
    }
}

/// The count of the first `n` members looks at the first `n` states only.
pub proof fn lemma_count_upto_prefix<T, A, VT: ViewSequence<T, A>>(
    views: Seq<VT>,
    a: Seq<StateModel>,
    b: Seq<StateModel>,
    n: nat,
)
    requires
        n <= a.len(),
        n <= b.len(),
        a.take(n as int) == b.take(n as int),
    ensures
        count_upto::<T, A, VT>(views, a, n) == count_upto::<T, A, VT>(views, b, n),
    decreases n,
{
    if n > 0 {
        assert(a.take(n - 1) =~= a.take(n as int).take(n - 1));
        assert(b.take(n - 1) =~= b.take(n as int).take(n - 1));
        lemma_count_upto_prefix::<T, A, VT>(views, a, b, (n - 1) as nat);
        assert(a[n - 1] == a.take(n as int)[n - 1]);
        assert(b[n - 1] == b.take(n as int)[n - 1]);
    }
}

/// The live nodes of the first members and those of the members after them
/// are the live nodes of all.
pub proof fn lemma_count_from<T, A, VT: ViewSequence<T, A>>(
    views: Seq<VT>,
    states: Seq<StateModel>,
    from: nat,
    to: nat,
)
    requires
        from <= to,
    ensures
        count_upto::<T, A, VT>(views, states, from) + count_from::<T, A, VT>(
            views,
            states,
            from,
            to,
        ) == count_upto::<T, A, VT>(views, states, to),
    decreases to,
{
    if from < to {
        lemma_count_from::<T, A, VT>(views, states, from, (to - 1) as nat);
    }
}

/// Fewer of the later members have no more live nodes.
pub proof fn lemma_count_from_grows<T, A, VT: ViewSequence<T, A>>(
    views: Seq<VT>,
    states: Seq<StateModel>,
    from: nat,
    i: nat,
    to: nat,
)
    requires
        i <= to,
    ensures
        count_from::<T, A, VT>(views, states, from, i) <= count_from::<T, A, VT>(
            views,
            states,
            from,
            to,
        ),
    decreases to,
{
    if i < to {
        lemma_count_from_grows::<T, A, VT>(views, states, from, i, (to - 1) as nat);
    }
}

/// The count of the members in some places looks at the states in those
/// places only.
pub proof fn lemma_count_from_window<T, A, VT: ViewSequence<T, A>>(
    views: Seq<VT>,
    a: Seq<StateModel>,
    b: Seq<StateModel>,
    from: nat,
    to: nat,
)
    requires
        from <= to,
        to <= a.len(),
        to <= b.len(),
        forall|k: int| from <= k < to ==> a[k] == b[k],
    ensures
        count_from::<T, A, VT>(views, a, from, to) == count_from::<T, A, VT>(views, b, from, to),
    decreases to,
{
    if from < to {
        lemma_count_from_window::<T, A, VT>(views, a, b, from, (to - 1) as nat);
    }
}

/// Building members of a list leaves a state of each, with one live node for
/// each that the states count, and moves the session on by no more than their
/// sizes together.
pub proof fn lemma_build_upto<T, A, VT: ViewSequence<T, A>>(
    views: Seq<VT>,
    cx: CxView,
    from: nat,
    to: nat,
    front: Seq<StateModel>,
)
    requires
        from <= to <= views.len(),
        front.len() == from,
    ensures
        ({
            let out = build_upto::<T, A, VT>(views, cx, from, to);
            &&& out.states.len() == to - from
            &&& forall|i: int| from <= i < to ==> (#[trigger] views[i]).seq_live(out.states[i - from])
            &&& count_upto::<T, A, VT>(views, front + out.states, to) == count_upto::<T, A, VT>(
                views,
                front,
                from,
            ) + out.pods.len()
            &&& size_upto::<T, A, VT>(views, from) <= size_upto::<T, A, VT>(views, to)
            &&& advanced(
                cx,
                out.cx,
                (size_upto::<T, A, VT>(views, to) - size_upto::<T, A, VT>(views, from)) as nat,
            )
        }),
    decreases to,
{
    let out = build_upto::<T, A, VT>(views, cx, from, to);
    if to <= from {
        assert(front + out.states =~= front);
        assert(cx.log.take(cx.log.len() as int) =~= cx.log);
    } else {
        let before = build_upto::<T, A, VT>(views, cx, from, (to - 1) as nat);
        lemma_build_upto::<T, A, VT>(views, cx, from, (to - 1) as nat, front);
        views[to - 1].lemma_seq_build(before.cx);
        let last = views[to - 1].seq_build_spec(before.cx);
        lemma_advanced_twice(
            cx,
            before.cx,
            last.cx,
            (size_upto::<T, A, VT>(views, (to - 1) as nat) - size_upto::<T, A, VT>(
                views,
                from,
            )) as nat,
            views[to - 1].seq_size(),
        );
        assert((front + out.states).take(to - 1) =~= (front + before.states).take(to - 1));
        lemma_count_upto_prefix::<T, A, VT>(
            views,
            front + out.states,
            front + before.states,
            (to - 1) as nat,
        );
        assert((front + out.states)[to - 1] == last.state);
        assert forall|i: int| from <= i < to implies (#[trigger] views[i]).seq_live(
            out.states[i - from],
        ) by {
            if i < to - 1 {
                assert(out.states[i - from] == before.states[i - from]);
            }
        }
    }
}

/// Rebuilding the first members of a list leaves a state of each, with one
/// live node for each that the states count, and moves the session on by no
/// more than their sizes together.
pub proof fn lemma_rebuild_upto<T, A, VT: ViewSequence<T, A>>(
    views: Seq<VT>,
    prevs: Seq<VT>,
    states: Seq<StateModel>,
    pods: Seq<Pod>,
    cx: CxView,
    n: nat,
)
    requires
        n <= views.len(),
        n <= prevs.len(),
        n <= states.len(),
        live_upto::<T, A, VT>(prevs, states, n),
        count_upto::<T, A, VT>(prevs, states, n) <= pods.len(),
    ensures
        ({
            let out = rebuild_upto::<T, A, VT>(views, prevs, states, pods, cx, n);
            &&& out.states.len() == n
            &&& live_upto::<T, A, VT>(views, out.states, n)
            &&& count_upto::<T, A, VT>(views, out.states, n) == out.pods.len()
            &&& advanced(cx, out.cx, size_upto::<T, A, VT>(views, n))
        }),
    decreases n,
{
    let out = rebuild_upto::<T, A, VT>(views, prevs, states, pods, cx, n);
    if n == 0 {
        assert(cx.log.take(cx.log.len() as int) =~= cx.log);
    } else {
        let before = rebuild_upto::<T, A, VT>(views, prevs, states, pods, cx, (n - 1) as nat);
        lemma_rebuild_upto::<T, A, VT>(views, prevs, states, pods, cx, (n - 1) as nat);
        let from = count_upto::<T, A, VT>(prevs, states, (n - 1) as nat);
        let own = prevs[n - 1].count_spec(states[n - 1]);
        assert(prevs[n - 1].seq_live(states[n - 1]));
        views[n - 1].lemma_seq_rebuild(
            &prevs[n - 1],
            states[n - 1],
            pods.subrange(from as int, (from + own) as int),
            before.cx,
        );
        let last = views[n - 1].seq_rebuild_spec(
            &prevs[n - 1],
            states[n - 1],
            pods.subrange(from as int, (from + own) as int),
            before.cx,
        );
        lemma_advanced_twice(
            cx,
            before.cx,
            last.cx,
            size_upto::<T, A, VT>(views, (n - 1) as nat),
            views[n - 1].seq_size(),
        );
        assert(out.states.take(n - 1) =~= before.states.take(n - 1));
        lemma_count_upto_prefix::<T, A, VT>(views, out.states, before.states, (n - 1) as nat);
        assert forall|i: int| 0 <= i < n implies (#[trigger] views[i]).seq_live(
            out.states[i],
        ) by {
            if i < n - 1 {
                assert(out.states[i] == before.states[i]);
            }
        }
    }
}

/// Rebuilding the first members of a list looks at those members only.
pub proof fn lemma_rebuild_upto_looks_at<T, A, VT: ViewSequence<T, A>>(
    views: Seq<VT>,
    others: Seq<VT>,
    prevs: Seq<VT>,
    states: Seq<StateModel>,
    pods: Seq<Pod>,
    cx: CxView,
    n: nat,
)
    requires
        n <= views.len(),
        n <= others.len(),
        forall|j: int| 0 <= j < n ==> views[j] == others[j],
    ensures
        rebuild_upto::<T, A, VT>(views, prevs, states, pods, cx, n) == rebuild_upto::<T, A, VT>(
            others,
            prevs,
            states,
            pods,
            cx,
            n,
        ),
    decreases n,
{
    if n > 0 {
        lemma_rebuild_upto_looks_at::<T, A, VT>(
            views,
            others,
            prevs,
            states,
            pods,
            cx,
            (n - 1) as nat,
        );
    }
}

/// Rebuilding the first members of a list against themselves changes nothing
/// and records nothing.
pub proof fn lemma_rebuild_upto_same<T, A, VT: ViewSequence<T, A>>(
    views: Seq<VT>,
    states: Seq<StateModel>,
    pods: Seq<Pod>,
    cx: CxView,
    n: nat,
)
    requires
        n <= views.len(),
        n <= states.len(),
        live_upto::<T, A, VT>(views, states, n),
        count_upto::<T, A, VT>(views, states, n) <= pods.len(),
    ensures
        rebuild_upto::<T, A, VT>(views, views, states, pods, cx, n) == (RebuiltList {
            states: states.take(n as int),
            pods: pods.take(count_upto::<T, A, VT>(views, states, n) as int),
            cx,
            flags: ChangeFlags::empty(),
        }),
    decreases n,
{
    let out = rebuild_upto::<T, A, VT>(views, views, states, pods, cx, n);
    if n == 0 {
        assert(out.states =~= states.take(0));
        assert(out.pods =~= pods.take(0));
    } else {
        lemma_rebuild_upto_same::<T, A, VT>(views, states, pods, cx, (n - 1) as nat);
        let from = count_upto::<T, A, VT>(views, states, (n - 1) as nat);
        let own = views[n - 1].count_spec(states[n - 1]);
        assert(views[n - 1].seq_live(states[n - 1]));
        views[n - 1].lemma_seq_rebuild_same(
            states[n - 1],
            pods.subrange(from as int, (from + own) as int),
            cx,
        );
        ChangeFlags::lemma_union_unit(ChangeFlags::empty());
        assert(out.states =~= states.take(n as int));
        assert(out.pods =~= pods.take((from + own) as int));
    }
}

/// What a list of the same length, in which only the member in place `k`
/// changed, leaves of the first `n` members: the others keep their states
/// and live nodes and record nothing, and the one that changed is rebuilt in
/// its place.
pub proof fn lemma_rebuild_upto_one_changed<T, A, VT: ViewSequence<T, A>>(
    views: Seq<VT>,
    prevs: Seq<VT>,
    states: Seq<StateModel>,
    pods: Seq<Pod>,
    cx: CxView,
    k: int,
    n: nat,
)
    requires
        0 <= k < n <= views.len(),
        views.len() == prevs.len(),
        states.len() == prevs.len(),
        live_upto::<T, A, VT>(prevs, states, prevs.len()),
        count_upto::<T, A, VT>(prevs, states, prevs.len()) <= pods.len(),
        forall|j: int| 0 <= j < views.len() && j != k ==> views[j] == prevs[j],
    ensures
        ({
            let from = count_upto::<T, A, VT>(prevs, states, k as nat);
            let own = prevs[k].count_spec(states[k]);
            let one = views[k].seq_rebuild_spec(
                &prevs[k],
                states[k],
                pods.subrange(from as int, (from + own) as int),
                cx,
            );
            rebuild_upto::<T, A, VT>(views, prevs, states, pods, cx, n) == (RebuiltList {
                states: states.take(n as int).update(k, one.state),
                pods: pods.take(from as int) + one.pods + pods.subrange(
                    (from + own) as int,
                    count_upto::<T, A, VT>(prevs, states, n) as int,
                ),
                cx: one.cx,
                flags: one.flags,
            })
        }),
    decreases n,
{
    let from = count_upto::<T, A, VT>(prevs, states, k as nat);
    let own = prevs[k].count_spec(states[k]);
    let one = views[k].seq_rebuild_spec(
        &prevs[k],
        states[k],
        pods.subrange(from as int, (from + own) as int),
        cx,
    );
    let out = rebuild_upto::<T, A, VT>(views, prevs, states, pods, cx, n);
    lemma_count_upto_grows::<T, A, VT>(prevs, states, n, prevs.len());
    lemma_count_upto_grows::<T, A, VT>(prevs, states, (k + 1) as nat, n);
    ChangeFlags::lemma_union_unit(one.flags);
    if n == k + 1 {
        lemma_rebuild_upto_looks_at::<T, A, VT>(views, prevs, prevs, states, pods, cx, k as nat);
        lemma_rebuild_upto_same::<T, A, VT>(prevs, states, pods, cx, k as nat);
        assert(out.states =~= states.take(n as int).update(k, one.state));
        assert(out.pods =~= pods.take(from as int) + one.pods + pods.subrange(
            (from + own) as int,
            count_upto::<T, A, VT>(prevs, states, n) as int,
        ));
    } else {
        lemma_rebuild_upto_one_changed::<T, A, VT>(
            views,
            prevs,
            states,
            pods,
            cx,
            k,
            (n - 1) as nat,
        );
        let before = count_upto::<T, A, VT>(prevs, states, (n - 1) as nat);
        let last = prevs[n - 1].count_spec(states[n - 1]);
        lemma_count_upto_grows::<T, A, VT>(prevs, states, (k + 1) as nat, (n - 1) as nat);
        assert(prevs[n - 1].seq_live(states[n - 1]));
        assert(views[n - 1] == prevs[n - 1]);
        prevs[n - 1].lemma_seq_rebuild_same(
            states[n - 1],
            pods.subrange(before as int, (before + last) as int),
            one.cx,
        );
        assert(out.states =~= states.take(n as int).update(k, one.state));
        assert(out.pods =~= pods.take(from as int) + one.pods + pods.subrange(
            (from + own) as int,
            count_upto::<T, A, VT>(prevs, states, n) as int,
        ));
    }
}

/// Building members of a list mints every identity of theirs in the course
/// of the build, and no identity is held by two of them.
pub proof fn lemma_build_upto_identified<T, A, VT: ViewSequence<T, A>>(
    views: Seq<VT>,
    cx: CxView,
    from: nat,
    to: nat,
    front: Seq<StateModel>,
)
    requires
        from <= to <= views.len(),
        front.len() == from,
        size_upto::<T, A, VT>(views, from) <= size_upto::<T, A, VT>(views, to),
        cx.has_room((size_upto::<T, A, VT>(views, to) - size_upto::<T, A, VT>(views, from)) as nat),
    ensures
        ({
            let out = build_upto::<T, A, VT>(views, cx, from, to);
            let all = front + out.states;
            &&& forall|j: int|
                from <= j < to ==> #[trigger] identified_at::<T, A, VT>(
                    views,
                    all,
                    out.cx.next_id,
                    j,
                )
            &&& forall|j: int, id: Id|
                from <= j < to && #[trigger] ids_at::<T, A, VT>(views, all, j).contains(id)
                    ==> cx.next_id <= id.0 < out.cx.next_id
            &&& forall|j: int, k: int, id: Id|
                from <= j < k < to && #[trigger] ids_at::<T, A, VT>(views, all, j).contains(id)
                    ==> !#[trigger] ids_at::<T, A, VT>(views, all, k).contains(id)
        }),
    decreases to,
{
    if to > from {
        let out = build_upto::<T, A, VT>(views, cx, from, to);
        let all = front + out.states;
        let before = build_upto::<T, A, VT>(views, cx, from, (to - 1) as nat);
        let was = front + before.states;
        lemma_size_upto_grows::<T, A, VT>(views, from, (to - 1) as nat);
        lemma_build_upto::<T, A, VT>(views, cx, from, (to - 1) as nat, front);
        lemma_build_upto_identified::<T, A, VT>(views, cx, from, (to - 1) as nat, front);
        let last = views[to - 1].seq_build_spec(before.cx);
        views[to - 1].lemma_seq_build(before.cx);
        views[to - 1].lemma_seq_build_identified(before.cx);
        views[to - 1].lemma_seq_ids_bounded(last.state, last.cx.next_id);
        assert(all[to - 1] == last.state);
        assert forall|j: int| from <= j < to - 1 implies all[j] == was[j] by {}
        assert forall|j: int| from <= j < to implies #[trigger] identified_at::<T, A, VT>(
            views,
            all,
            out.cx.next_id,
            j,
        ) by {
            if j < to - 1 {
                assert(identified_at::<T, A, VT>(views, was, before.cx.next_id, j));
                views[j].lemma_seq_identified_grows(was[j], before.cx.next_id, out.cx.next_id);
            }
        }
        assert forall|j: int, id: Id|
            from <= j < to && #[trigger] ids_at::<T, A, VT>(views, all, j).contains(
                id,
            ) implies cx.next_id <= id.0 < out.cx.next_id by {
            if j < to - 1 {
                assert(ids_at::<T, A, VT>(views, was, j).contains(id));
            }
        }
        assert forall|j: int, k: int, id: Id|
            from <= j < k < to && #[trigger] ids_at::<T, A, VT>(views, all, j).contains(
                id,
            ) implies !#[trigger] ids_at::<T, A, VT>(views, all, k).contains(id) by {
            assert(ids_at::<T, A, VT>(views, was, j).contains(id));
            if k < to - 1 {
                if ids_at::<T, A, VT>(views, all, k).contains(id) {
                    assert(ids_at::<T, A, VT>(views, was, k).contains(id));
                }
            }
        }
    }
}

/// Rebuilding the first members of a list leaves their identities in order,
/// and each identity of a member either was held by that member before or
/// is newly minted.
pub proof fn lemma_rebuild_upto_identified<T, A, VT: ViewSequence<T, A>>(
    views: Seq<VT>,
    prevs: Seq<VT>,
    states: Seq<StateModel>,
    pods: Seq<Pod>,
    cx: CxView,
    n: nat,
)
    requires
        n <= views.len(),
        n <= prevs.len(),
        n <= states.len(),
        live_upto::<T, A, VT>(prevs, states, n),
        count_upto::<T, A, VT>(prevs, states, n) <= pods.len(),
        identified_upto::<T, A, VT>(prevs, states, cx.next_id, n),
        cx.has_room(size_upto::<T, A, VT>(views, n)),
    ensures
        ({
            let out = rebuild_upto::<T, A, VT>(views, prevs, states, pods, cx, n);
            &&& identified_upto::<T, A, VT>(views, out.states, out.cx.next_id, n)
            &&& forall|j: int, id: Id|
                0 <= j < n && #[trigger] ids_at::<T, A, VT>(views, out.states, j).contains(id)
                    ==> ids_at::<T, A, VT>(prevs, states, j).contains(id) || cx.next_id <= id.0
        }),
    decreases n,
{
    if n > 0 {
        let out = rebuild_upto::<T, A, VT>(views, prevs, states, pods, cx, n);
        let before = rebuild_upto::<T, A, VT>(views, prevs, states, pods, cx, (n - 1) as nat);
        lemma_size_upto_grows::<T, A, VT>(views, (n - 1) as nat, n);
        lemma_count_upto_grows::<T, A, VT>(prevs, states, (n - 1) as nat, n);
        assert(identified_upto::<T, A, VT>(prevs, states, cx.next_id, (n - 1) as nat));
        lemma_rebuild_upto::<T, A, VT>(views, prevs, states, pods, cx, (n - 1) as nat);
        lemma_rebuild_upto_identified::<T, A, VT>(views, prevs, states, pods, cx, (n - 1) as nat);
        let from = count_upto::<T, A, VT>(prevs, states, (n - 1) as nat);
        let own = prevs[n - 1].count_spec(states[n - 1]);
        let given = pods.subrange(from as int, (from + own) as int);
        let last = views[n - 1].seq_rebuild_spec(&prevs[n - 1], states[n - 1], given, before.cx);
        assert(prevs[n - 1].seq_live(states[n - 1]));
        assert(identified_at::<T, A, VT>(prevs, states, cx.next_id, n - 1));
        prevs[n - 1].lemma_seq_identified_grows(states[n - 1], cx.next_id, before.cx.next_id);
        views[n - 1].lemma_seq_rebuild(&prevs[n - 1], states[n - 1], given, before.cx);
        views[n - 1].lemma_seq_rebuild_identified(&prevs[n - 1], states[n - 1], given, before.cx);
        views[n - 1].lemma_seq_ids_bounded(last.state, last.cx.next_id);
        prevs[n - 1].lemma_seq_ids_bounded(states[n - 1], cx.next_id);
        assert(out.states[n - 1] == last.state);
        assert forall|j: int| 0 <= j < n - 1 implies out.states[j] == before.states[j] by {}
        assert forall|j: int| 0 <= j < n implies #[trigger] identified_at::<T, A, VT>(
            views,
            out.states,
            out.cx.next_id,
            j,
        ) by {
            if j < n - 1 {
                assert(identified_at::<T, A, VT>(views, before.states, before.cx.next_id, j));
                views[j].lemma_seq_identified_grows(
                    before.states[j],
                    before.cx.next_id,
                    out.cx.next_id,
                );
            }
        }
        assert forall|j: int, id: Id|
            0 <= j < n && #[trigger] ids_at::<T, A, VT>(views, out.states, j).contains(
                id,
            ) implies ids_at::<T, A, VT>(prevs, states, j).contains(id) || cx.next_id <= id.0 by {
            if j < n - 1 {
                assert(ids_at::<T, A, VT>(views, before.states, j).contains(id));
            }
        }
        assert forall|j: int, k: int, id: Id|
            0 <= j < k < n && #[trigger] ids_at::<T, A, VT>(views, out.states, j).contains(
                id,
            ) implies !#[trigger] ids_at::<T, A, VT>(views, out.states, k).contains(id) by {
            assert(ids_at::<T, A, VT>(views, before.states, j).contains(id));
            if ids_at::<T, A, VT>(views, out.states, k).contains(id) {
                if k < n - 1 {
                    assert(ids_at::<T, A, VT>(views, before.states, k).contains(id));
                } else {
                    assert(identified_at::<T, A, VT>(views, before.states, before.cx.next_id, j));
                    views[j].lemma_seq_ids_bounded(before.states[j], before.cx.next_id);
                    if ids_at::<T, A, VT>(prevs, states, j).contains(id) {
                        assert(!ids_at::<T, A, VT>(prevs, states, k).contains(id));
                    } else {
                        assert(identified_at::<T, A, VT>(prevs, states, cx.next_id, k));
                    }
                }
            }
        }
    }
}

/// A message whose path is empty, or begins with an identity that none of
/// the first members holds, is stale for all of them.
pub proof fn lemma_message_upto_stale<T, A, VT: ViewSequence<T, A>>(
    views: Seq<VT>,
    id_path: Seq<Id>,
    states: Seq<StateModel>,
    message: MessageView,
    app_state: T,
    n: nat,
)
    requires
        n <= views.len(),
        n <= states.len(),
        live_upto::<T, A, VT>(views, states, n),
        id_path.len() == 0 || forall|j: int|
            0 <= j < n ==> !#[trigger] ids_at::<T, A, VT>(views, states, j).contains(id_path[0]),
    ensures
        message_upto::<T, A, VT>(views, id_path, states, message, app_state, n) == (DeliveredList::<
            T,
            A,
        > { result: MessageResult::Stale, states, app_state }),
    decreases n,
{
    if n > 0 {
        lemma_message_upto_stale::<T, A, VT>(
            views,
            id_path,
            states,
            message,
            app_state,
            (n - 1) as nat,
        );
        assert(views[n - 1].seq_live(states[n - 1]));
        if id_path.len() > 0 {
            assert(!ids_at::<T, A, VT>(views, states, n - 1).contains(id_path[0]));
        }
        views[n - 1].lemma_seq_message_stale(id_path, states[n - 1], message, app_state);
        assert(states.update(n - 1, states[n - 1]) =~= states);
    }
}

/// A message reaches one member at most: where its path begins with an
/// identity that the member in place `i` holds, offering it to the first `n`
/// members, `i` among them, yields what that member alone makes of it.
pub proof fn lemma_message_upto_reaches<T, A, VT: ViewSequence<T, A>>(
    views: Seq<VT>,
    id_path: Seq<Id>,
    states: Seq<StateModel>,
    bound: nat,
    message: MessageView,
    app_state: T,
    i: int,
    n: nat,
)
    requires
        0 <= i < n <= views.len(),
        states.len() == views.len(),
        live_upto::<T, A, VT>(views, states, views.len()),
        identified_upto::<T, A, VT>(views, states, bound, views.len()),
        id_path.len() > 0,
        ids_at::<T, A, VT>(views, states, i).contains(id_path[0]),
    ensures
        ({
            let own = views[i].seq_message_spec(id_path, states[i], message, app_state);
            message_upto::<T, A, VT>(views, id_path, states, message, app_state, n) == (DeliveredList::<
                T,
                A,
            > { result: own.result, states: states.update(i, own.state), app_state: own.app_state })
        }),
    decreases n,
{
    let own = views[i].seq_message_spec(id_path, states[i], message, app_state);
    if n == i + 1 {
        assert forall|j: int| 0 <= j < i implies !#[trigger] ids_at::<T, A, VT>(
            views,
            states,
            j,
        ).contains(id_path[0]) by {}
        assert forall|j: int| 0 <= j < i implies (#[trigger] views[j]).seq_live(states[j]) by {}
        lemma_message_upto_stale::<T, A, VT>(views, id_path, states, message, app_state, i as nat);
    } else {
        lemma_message_upto_reaches::<T, A, VT>(
            views,
            id_path,
            states,
            bound,
            message,
            app_state,
            i,
            (n - 1) as nat,
        );
        if own.result is Stale {
            let after = states.update(i, own.state);
            assert(after[n - 1] == states[n - 1]);
            assert(views[n - 1].seq_live(states[n - 1]));
            assert(!ids_at::<T, A, VT>(views, states, n - 1).contains(id_path[0]));
            views[n - 1].lemma_seq_message_stale(id_path, states[n - 1], message, own.app_state);
            assert(after.update(n - 1, states[n - 1]) =~= after);
        }
    }
}

/// Rebuilds the first `common` members of `views`, each against the member
/// of `prev` in its place.
fn rebuild_kept<T, A, VT: ViewSequence<T, A>>(
    views: &Vec<VT>,
    cx: &mut Cx,
    prev: &Vec<VT>,
    state: &mut Vec<VT::State>,
    elements: &mut VecSplice<Pod>,
    common: usize,
) -> (flags: ChangeFlags)
    requires
        common <= views@.len(),
        common <= prev@.len(),
        old(state)@.len() == prev@.len(),
        live_upto::<T, A, VT>(prev@, models::<T, A, VT>(old(state)@), prev@.len()),
        old(elements).wf(),
        count_upto::<T, A, VT>(prev@, models::<T, A, VT>(old(state)@), prev@.len()) <= old(
            elements,
        ).pending().len(),
        old(elements).pending().len() <= usize::MAX,
        old(cx)@.has_room(size_upto::<T, A, VT>(views@, views@.len())),
    ensures
        ({
            let items = models::<T, A, VT>(old(state)@);
            let total = count_upto::<T, A, VT>(prev@, items, prev@.len());
            let pods = old(elements).pending().take(total as int);
            let kept = rebuild_upto::<T, A, VT>(views@, prev@, items, pods, old(cx)@, common as nat);
            &&& final(cx)@ == kept.cx
            &&& flags == kept.flags
            &&& final(elements).wf()
            &&& final(elements).done() == old(elements).done() + kept.pods
            &&& final(elements).pending() == old(elements).pending().skip(
                count_upto::<T, A, VT>(prev@, items, common as nat) as int,
            )
            &&& final(state)@.len() == old(state)@.len()
            &&& models::<T, A, VT>(final(state)@) == kept.states + items.skip(common as int)
        }),
{
    let ghost items = models::<T, A, VT>(state@);
    let ghost m = prev@.len();
    let ghost total = count_upto::<T, A, VT>(prev@, items, m);
    let ghost pods = elements.pending().take(total as int);
    let mut changed = ChangeFlags::empty();
    let mut i: usize = 0;
    proof {
        assert(elements.done() =~= old(elements).done() + Seq::<Pod>::empty());
        assert(elements.pending() =~= old(elements).pending().skip(0));
        assert(models::<T, A, VT>(state@) =~= Seq::<StateModel>::empty() + items.skip(0));
    }
    while i < common
        invariant
            i <= common,
            common <= views@.len(),
            common <= m,
            m == prev@.len(),
            state@.len() == m,
            items.len() == m,
            live_upto::<T, A, VT>(prev@, items, m),
            total == count_upto::<T, A, VT>(prev@, items, m),
            total <= old(elements).pending().len(),
            old(elements).pending().len() <= usize::MAX,
            pods == old(elements).pending().take(total as int),
            old(cx)@.has_room(size_upto::<T, A, VT>(views@, views@.len())),
            elements.wf(),
            cx@ == rebuild_upto::<T, A, VT>(views@, prev@, items, pods, old(cx)@, i as nat).cx,
            changed == rebuild_upto::<T, A, VT>(
                views@,
                prev@,
                items,
                pods,
                old(cx)@,
                i as nat,
            ).flags,
            elements.done() == old(elements).done() + rebuild_upto::<T, A, VT>(
                views@,
                prev@,
                items,
                pods,
                old(cx)@,
                i as nat,
            ).pods,
            elements.pending() == old(elements).pending().skip(
                count_upto::<T, A, VT>(prev@, items, i as nat) as int,
            ),
            models::<T, A, VT>(state@) == rebuild_upto::<T, A, VT>(
                views@,
                prev@,
                items,
                pods,
                old(cx)@,
                i as nat,
            ).states + items.skip(i as int),
        decreases common - i,
    {
        let ghost kept = rebuild_upto::<T, A, VT>(views@, prev@, items, pods, old(cx)@, i as nat);
        let ghost from = count_upto::<T, A, VT>(prev@, items, i as nat);
        let ghost own = prev@[i as int].count_spec(items[i as int]);
        let ghost before = state@;
        let ghost last = views@[i as int].seq_rebuild_spec(
            &prev@[i as int],
            items[i as int],
            pods.subrange(from as int, (from + own) as int),
            kept.cx,
        );
        proof {
            lemma_count_upto_grows::<T, A, VT>(prev@, items, (i + 1) as nat, m);
            lemma_rebuild_upto::<T, A, VT>(views@, prev@, items, pods, old(cx)@, i as nat);
            lemma_size_upto_grows::<T, A, VT>(views@, (i + 1) as nat, views@.len());
            assert(prev@[i as int].seq_live(items[i as int]));
            assert(models::<T, A, VT>(state@)[i as int] == items[i as int]);
            assert(elements.pending().take(own as int) =~= pods.subrange(
                from as int,
                (from + own) as int,
            ));
            assert(elements.pending().skip(own as int) =~= old(elements).pending().skip(
                (from + own) as int,
            ));
        }
        let flags = views[i].seq_rebuild(cx, &prev[i], &mut state[i], elements);
        changed = changed.union(flags);
        proof {
            assert(state@ == before.update(i as int, state@[i as int]));
            let now = models::<T, A, VT>(state@);
            let want = kept.states.push(last.state) + items.skip(i + 1);
            assert(now.len() == want.len());
            assert forall|k: int| 0 <= k < now.len() implies now[k] == want[k] by {
                if k < i {
                    assert(state@[k] == before[k]);
                    assert(models::<T, A, VT>(before)[k] == kept.states[k]);
                } else if k == i {
                } else {
                    assert(state@[k] == before[k]);
                    assert(models::<T, A, VT>(before)[k] == items.skip(i as int)[k - i]);
                }
            }
            assert(now =~= want);
            assert(elements.done() =~= old(elements).done() + (kept.pods + last.pods));
        }
        i = i + 1;
    }
    changed
}

/// Drops the live nodes of the members of `prev` from place `n` on, and
/// their states.
fn drop_tail<T, A, VT: ViewSequence<T, A>>(
    prev: &Vec<VT>,
    state: &mut Vec<VT::State>,
    elements: &mut VecSplice<Pod>,
    n: usize,
)
    requires
        n <= prev@.len(),
        old(state)@.len() == prev@.len(),
        forall|k: int|
            n <= k < prev@.len() ==> (#[trigger] prev@[k]).seq_live(
                models::<T, A, VT>(old(state)@)[k],
            ),
        old(elements).wf(),
        count_from::<T, A, VT>(prev@, models::<T, A, VT>(old(state)@), n as nat, prev@.len())
            <= old(elements).pending().len(),
        old(elements).pending().len() <= usize::MAX,
    ensures
        final(state)@ == old(state)@.take(n as int),
        final(elements).wf(),
        final(elements).done() == old(elements).done(),
        final(elements).pending() == old(elements).pending().skip(
            count_from::<T, A, VT>(
                prev@,
                models::<T, A, VT>(old(state)@),
                n as nat,
                prev@.len(),
            ) as int,
        ),
{
    let ghost items = models::<T, A, VT>(state@);
    let m: usize = prev.len();
    let mut doomed: usize = 0;
    let mut j: usize = n;
    while j < m
        invariant
            n <= j <= m,
            m == prev@.len(),
            state@.len() == m,
            items == models::<T, A, VT>(state@),
            forall|k: int| n <= k < m ==> (#[trigger] prev@[k]).seq_live(items[k]),
            count_from::<T, A, VT>(prev@, items, n as nat, m as nat) <= usize::MAX,
            doomed == count_from::<T, A, VT>(prev@, items, n as nat, j as nat),
        decreases m - j,
    {
        proof {
            lemma_count_from_grows::<T, A, VT>(prev@, items, n as nat, (j + 1) as nat, m as nat);
            assert(prev@[j as int].seq_live(items[j as int]));
            assert(items[j as int] == VT::seq_state_model(&state@[j as int]));
        }
        let own = prev[j].count(&state[j]);
        doomed = doomed + own;
        j = j + 1;
    }
    elements.delete(doomed);
    state.truncate(n);
}

/// Builds the members of `views` from place `from` on and puts their states
/// and live nodes after those that are there.
fn build_tail<T, A, VT: ViewSequence<T, A>>(
    views: &Vec<VT>,
    cx: &mut Cx,
    state: &mut Vec<VT::State>,
    elements: &mut VecSplice<Pod>,
    from: usize,
)
    requires
        from <= views@.len(),
        size_upto::<T, A, VT>(views@, from as nat) <= size_upto::<T, A, VT>(
            views@,
            views@.len(),
        ),
        old(cx)@.has_room(
            (size_upto::<T, A, VT>(views@, views@.len()) - size_upto::<T, A, VT>(
                views@,
                from as nat,
            )) as nat,
        ),
        old(elements).wf(),
    ensures
        ({
            let added = build_upto::<T, A, VT>(views@, old(cx)@, from as nat, views@.len());
            &&& final(cx)@ == added.cx
            &&& models::<T, A, VT>(final(state)@) == models::<T, A, VT>(old(state)@)
                + added.states
            &&& final(elements).wf()
            &&& final(elements).done() == old(elements).done() + added.pods
            &&& final(elements).pending() == old(elements).pending()
        }),
{
    let n: usize = views.len();
    let mut fresh: Vec<Pod> = Vec::new();
    let mut j: usize = from;
    proof {
        assert(models::<T, A, VT>(state@) =~= models::<T, A, VT>(old(state)@) + Seq::<
            StateModel,
        >::empty());
    }
    while j < n
        invariant
            from <= j <= n,
            n == views@.len(),
            size_upto::<T, A, VT>(views@, from as nat) <= size_upto::<T, A, VT>(views@, n as nat),
            old(cx)@.has_room(
                (size_upto::<T, A, VT>(views@, n as nat) - size_upto::<T, A, VT>(
                    views@,
                    from as nat,
                )) as nat,
            ),
            cx@ == build_upto::<T, A, VT>(views@, old(cx)@, from as nat, j as nat).cx,
            fresh@ == build_upto::<T, A, VT>(views@, old(cx)@, from as nat, j as nat).pods,
            models::<T, A, VT>(state@) == models::<T, A, VT>(old(state)@) + build_upto::<
                T,
                A,
                VT,
            >(views@, old(cx)@, from as nat, j as nat).states,
        decreases n - j,
    {
        proof {
            lemma_build_upto::<T, A, VT>(
                views@,
                old(cx)@,
                from as nat,
                j as nat,
                Seq::new(from as nat, |k: int| StateModel::Unit),
            );
            lemma_size_upto_grows::<T, A, VT>(views@, (j + 1) as nat, n as nat);
        }
        let ghost before = state@;
        let built = views[j].seq_build(cx, &mut fresh);
        state.push(built);
        proof {
            let done = build_upto::<T, A, VT>(views@, old(cx)@, from as nat, j as nat);
            let last = views@[j as int].seq_build_spec(done.cx);
            assert(models::<T, A, VT>(state@) =~= models::<T, A, VT>(before).push(
                VT::seq_state_model(&built),
            ));
            assert(models::<T, A, VT>(state@) =~= models::<T, A, VT>(old(state)@)
                + done.states.push(last.state));
        }
        j = j + 1;
    }
    elements.append(&mut fresh);
}

/// A list that can grow and shrink. Its members are compared place by place:
/// a member is rebuilt against the member that stood in its place, members
/// past the end of the old list are built, and the live nodes of members past
/// the end of the new list are dropped.
impl<T, A, VT: ViewSequence<T, A>> ViewSequence<T, A> for Vec<VT> {
    type State = Vec<VT::State>;

    open spec fn seq_state_model(state: &Vec<VT::State>) -> StateModel {
        StateModel::List(models::<T, A, VT>(state@))
    }

    open spec fn seq_size(&self) -> nat {
        size_upto::<T, A, VT>(self@, self@.len())
    }

    open spec fn count_spec(&self, state: StateModel) -> nat {
        count_upto::<T, A, VT>(self@, state->List_0, self@.len())
    }

    open spec fn seq_live(&self, state: StateModel) -> bool {
        &&& state matches StateModel::List(states)
        &&& states.len() == self@.len()
        &&& live_upto::<T, A, VT>(self@, states, self@.len())
    }

    open spec fn seq_ids(&self, state: StateModel) -> Set<Id> {
        Set::new(
            |id: Id|
                exists|j: int|
                    0 <= j < self@.len() && #[trigger] ids_at::<T, A, VT>(
                        self@,
                        state->List_0,
                        j,
                    ).contains(id),
        )
    }

    open spec fn seq_identified(&self, state: StateModel, bound: nat) -> bool {
        state is List && identified_upto::<T, A, VT>(self@, state->List_0, bound, self@.len())
    }

    open spec fn seq_build_spec(&self, cx: CxView) -> Built {
        let out = build_upto::<T, A, VT>(self@, cx, 0, self@.len());
        Built { state: StateModel::List(out.states), pods: out.pods, cx: out.cx }
    }

    open spec fn seq_rebuild_spec(&self, prev: &Self, state: StateModel, pods: Seq<Pod>, cx: CxView) -> Rebuilt {
        let common = if self@.len() < prev@.len() {
            self@.len()
        } else {
            prev@.len()
        };
        let kept = rebuild_upto::<T, A, VT>(self@, prev@, state->List_0, pods, cx, common);
        if self@.len() < prev@.len() {
            Rebuilt {
                state: StateModel::List(kept.states),
                pods: kept.pods,
                cx: kept.cx,
                flags: kept.flags.union(ChangeFlags::structure()),
            }
        } else if self@.len() > prev@.len() {
            let added = build_upto::<T, A, VT>(self@, kept.cx, prev@.len(), self@.len());
            Rebuilt {
                state: StateModel::List(kept.states + added.states),
                pods: kept.pods + added.pods,
                cx: added.cx,
                flags: kept.flags.union(ChangeFlags::structure()),
            }
        } else {
            Rebuilt {
                state: StateModel::List(kept.states),
                pods: kept.pods,
                cx: kept.cx,
                flags: kept.flags,
            }
        }
    }

    open spec fn seq_message_spec(
        &self,
        id_path: Seq<Id>,
        state: StateModel,
        message: MessageView,
        app_state: T,
    ) -> Delivered<T, A> {
        let n = if self@.len() < state->List_0.len() {
            self@.len()
        } else {
            state->List_0.len()
        };
        let out = message_upto::<T, A, VT>(self@, id_path, state->List_0, message, app_state, n);
        Delivered { result: out.result, state: StateModel::List(out.states), app_state: out.app_state }
    }

    fn seq_build(&self, cx: &mut Cx, elements: &mut Vec<Pod>) -> (state: Vec<VT::State>) {
        let mut states: Vec<VT::State> = Vec::new();
        let mut i: usize = 0;
        assert(models::<T, A, VT>(states@) =~= Seq::empty());
        assert(elements@ =~= old(elements)@ + Seq::<Pod>::empty());
        while i < self.len()
            invariant
                i <= self@.len(),
                old(cx)@.has_room(size_upto::<T, A, VT>(self@, self@.len())),
                cx@ == build_upto::<T, A, VT>(self@, old(cx)@, 0, i as nat).cx,
                models::<T, A, VT>(states@) == build_upto::<T, A, VT>(
                    self@,
                    old(cx)@,
                    0,
                    i as nat,
                ).states,
                elements@ == old(elements)@ + build_upto::<T, A, VT>(
                    self@,
                    old(cx)@,
                    0,
                    i as nat,
                ).pods,
            decreases self@.len() - i,
        {
            proof {
                lemma_build_upto::<T, A, VT>(self@, old(cx)@, 0, i as nat, Seq::empty());
                lemma_size_upto_grows::<T, A, VT>(self@, (i + 1) as nat, self@.len());
            }
            let ghost before = states@;
            let state = self[i].seq_build(cx, elements);
            states.push(state);
            proof {
                assert(models::<T, A, VT>(states@) =~= models::<T, A, VT>(before).push(
                    VT::seq_state_model(&state),
                ));
                let done = build_upto::<T, A, VT>(self@, old(cx)@, 0, i as nat);
                let last = self@[i as int].seq_build_spec(done.cx);
                assert(elements@ =~= old(elements)@ + (done.pods + last.pods));
            }
            i = i + 1;
        }
        states
    }

    fn seq_rebuild(
        &self,
        cx: &mut Cx,
        prev: &Self,
        state: &mut Vec<VT::State>,
        elements: &mut VecSplice<Pod>,
    ) -> (flags: ChangeFlags) {
        let n: usize = self.len();
        let m: usize = prev.len();
        let common: usize = if n < m {
            n
        } else {
            m
        };
        let ghost items = models::<T, A, VT>(state@);
        let ghost total = count_upto::<T, A, VT>(prev@, items, m as nat);
        let ghost pods = elements.pending().take(total as int);
        let ghost kept = rebuild_upto::<T, A, VT>(self@, prev@, items, pods, old(cx)@, common as nat);
        proof {
            assert(items.len() == state@.len());
            assert(pods.len() == total);
            lemma_count_upto_grows::<T, A, VT>(prev@, items, common as nat, m as nat);
            lemma_rebuild_upto::<T, A, VT>(self@, prev@, items, pods, old(cx)@, common as nat);
            lemma_size_upto_grows::<T, A, VT>(self@, common as nat, n as nat);
        }
        let kept_flags = rebuild_kept::<T, A, VT>(self, cx, prev, state, elements, common);
        if n < m {
            proof {
                lemma_count_from::<T, A, VT>(prev@, items, n as nat, m as nat);
                lemma_count_from_window::<T, A, VT>(
                    prev@,
                    items,
                    models::<T, A, VT>(state@),
                    n as nat,
                    m as nat,
                );
                assert forall|k: int| n <= k < m implies (#[trigger] prev@[k]).seq_live(
                    models::<T, A, VT>(state@)[k],
                ) by {
                    assert(models::<T, A, VT>(state@)[k] == items[k]);
                }
            }
            let ghost mid = state@;
            drop_tail::<T, A, VT>(prev, state, elements, n);
            proof {
                assert(models::<T, A, VT>(state@) =~= models::<T, A, VT>(mid).take(n as int));
                assert((kept.states + items.skip(n as int)).take(n as int) =~= kept.states);
                assert(models::<T, A, VT>(state@) =~= kept.states);
                assert(old(elements).pending().skip(
                    count_upto::<T, A, VT>(prev@, items, n as nat) as int,
                ).skip(count_from::<T, A, VT>(prev@, items, n as nat, m as nat) as int)
                    =~= old(elements).pending().skip(total as int));
            }
            kept_flags.union(ChangeFlags::structure())
        } else if n > m {
            proof {
                lemma_size_upto_grows::<T, A, VT>(self@, m as nat, n as nat);
                assert(models::<T, A, VT>(state@) =~= kept.states);
            }
            let ghost added = build_upto::<T, A, VT>(self@, kept.cx, m as nat, n as nat);
            build_tail::<T, A, VT>(self, cx, state, elements, m);
            proof {
                assert(elements.done() =~= old(elements).done() + (kept.pods + added.pods));
            }
            kept_flags.union(ChangeFlags::structure())
        } else {
            proof {
                assert(models::<T, A, VT>(state@) =~= kept.states);
            }
            kept_flags
        }
    }

    fn seq_message(
        &self,
        id_path: &[Id],
        state: &mut Vec<VT::State>,
        message: &Message,
        app_state: &mut T,
    ) -> (result: MessageResult<A>) {
        let n: usize = if self.len() < state.len() {
            self.len()
        } else {
            state.len()
        };
        let ghost items = models::<T, A, VT>(state@);
        let mut result: MessageResult<A> = MessageResult::Stale;
        let mut i: usize = 0;
        while i < n
            invariant
                i <= n,
                n <= self@.len(),
                n <= state@.len(),
                state@.len() == items.len(),
                result == message_upto::<T, A, VT>(
                    self@,
                    id_path@,
                    items,
                    message@,
                    *old(app_state),
                    i as nat,
                ).result,
                models::<T, A, VT>(state@) == message_upto::<T, A, VT>(
                    self@,
                    id_path@,
                    items,
                    message@,
                    *old(app_state),
                    i as nat,
                ).states,
                *app_state == message_upto::<T, A, VT>(
                    self@,
                    id_path@,
                    items,
                    message@,
                    *old(app_state),
                    i as nat,
                ).app_state,
            decreases n - i,
        {
            let stale = match &result {
                MessageResult::Stale => true,
                _ => false,
            };
            if stale {
                let ghost before = state@;
                assert(models::<T, A, VT>(state@)[i as int] == VT::seq_state_model(&state@[i as int]));
                result = self[i].seq_message(id_path, &mut state[i], message, app_state);
                proof {
                    assert(state@ == before.update(i as int, state@[i as int]));
                    assert(models::<T, A, VT>(state@) =~= models::<T, A, VT>(before).update(
                        i as int,
                        VT::seq_state_model(&state@[i as int]),
                    ));
                }
            }
            i = i + 1;
        }
        result
    }

    fn count(&self, state: &Vec<VT::State>) -> (n: usize) {
        let ghost items = models::<T, A, VT>(state@);
        let mut total: usize = 0;
        let mut i: usize = 0;
        while i < self.len()
            invariant
                i <= self@.len(),
                state@.len() == self@.len(),
                items == models::<T, A, VT>(state@),
                live_upto::<T, A, VT>(self@, items, self@.len()),
                count_upto::<T, A, VT>(self@, items, self@.len()) <= usize::MAX,
                total == count_upto::<T, A, VT>(self@, items, i as nat),
            decreases self@.len() - i,
        {
            proof {
                lemma_count_upto_grows::<T, A, VT>(self@, items, (i + 1) as nat, self@.len());
                assert(self@[i as int].seq_live(items[i as int]));
                assert(items[i as int] == VT::seq_state_model(&state@[i as int]));
            }
            let own = self[i].count(&state[i]);
            total = total + own;
            i = i + 1;
        }
        total
    }

    fn seq_room_after(&self, room: u64) -> (left: Option<u64>) {
        let mut rest: u64 = room;
        let mut i: usize = 0;
        while i < self.len()
            invariant
                i <= self@.len(),
                size_upto::<T, A, VT>(self@, i as nat) + rest == room,
            decreases self@.len() - i,
        {
            proof {
                lemma_size_upto_grows::<T, A, VT>(self@, (i + 1) as nat, self@.len());
            }
            match self[i].seq_room_after(rest) {
                Some(less) => {
                    rest = less;
                },
                None => {
                    return None;
                },
            }
            i = i + 1;
        }
        Some(rest)
    }

    proof fn lemma_seq_build(&self, cx: CxView) {
        lemma_build_upto::<T, A, VT>(self@, cx, 0, self@.len(), Seq::empty());
        let out = build_upto::<T, A, VT>(self@, cx, 0, self@.len());
        assert(Seq::<StateModel>::empty() + out.states =~= out.states);
        assert forall|i: int| 0 <= i < self@.len() implies (#[trigger] self@[i]).seq_live(
            out.states[i],
        ) by {
            assert(out.states[i] == out.states[i - 0]);
        }
    }

    proof fn lemma_seq_rebuild(&self, prev: &Self, state: StateModel, pods: Seq<Pod>, cx: CxView) {
        let n = self@.len();
        let m = prev@.len();
        let items = state->List_0;
        let common = if n < m {
            n
        } else {
            m
        };
        lemma_count_upto_grows::<T, A, VT>(prev@, items, common, m);
        lemma_rebuild_upto::<T, A, VT>(self@, prev@, items, pods, cx, common);
        lemma_size_upto_grows::<T, A, VT>(self@, common, n);
        let kept = rebuild_upto::<T, A, VT>(self@, prev@, items, pods, cx, common);
        if n > m {
            lemma_build_upto::<T, A, VT>(self@, kept.cx, m, n, kept.states);
            let added = build_upto::<T, A, VT>(self@, kept.cx, m, n);
            lemma_advanced_twice(
                cx,
                kept.cx,
                added.cx,
                size_upto::<T, A, VT>(self@, m),
                (size_upto::<T, A, VT>(self@, n) - size_upto::<T, A, VT>(self@, m)) as nat,
            );
            let all = kept.states + added.states;
            assert forall|i: int| 0 <= i < n implies (#[trigger] self@[i]).seq_live(all[i]) by {
                if i < m {
                    assert(all[i] == kept.states[i]);
                } else {
                    assert(all[i] == added.states[i - m]);
                }
            }
        }
    }

    proof fn lemma_seq_identified_grows(&self, state: StateModel, bound: nat, later: nat) {
        let states = state->List_0;
        assert forall|j: int| 0 <= j < self@.len() implies #[trigger] identified_at::<T, A, VT>(
            self@,
            states,
            later,
            j,
        ) by {
            assert(identified_at::<T, A, VT>(self@, states, bound, j));
            self@[j].lemma_seq_identified_grows(states[j], bound, later);
        }
    }

    proof fn lemma_seq_ids_bounded(&self, state: StateModel, bound: nat) {
        let states = state->List_0;
        assert forall|id: Id| #[trigger] self.seq_ids(state).contains(id) implies id.0 < bound by {
            let j = choose|j: int|
                0 <= j < self@.len() && #[trigger] ids_at::<T, A, VT>(self@, states, j).contains(
                    id,
                );
            assert(identified_at::<T, A, VT>(self@, states, bound, j));
            self@[j].lemma_seq_ids_bounded(states[j], bound);
        }
    }

    proof fn lemma_seq_build_identified(&self, cx: CxView) {
        let out = build_upto::<T, A, VT>(self@, cx, 0, self@.len());
        lemma_build_upto_identified::<T, A, VT>(self@, cx, 0, self@.len(), Seq::empty());
        assert(Seq::<StateModel>::empty() + out.states =~= out.states);
    }

    proof fn lemma_seq_rebuild_identified(
        &self,
        prev: &Self,
        state: StateModel,
        pods: Seq<Pod>,
        cx: CxView,
    ) {
        let n = self@.len();
        let m = prev@.len();
        let states = state->List_0;
        let common = if n < m {
            n
        } else {
            m
        };
        let kept = rebuild_upto::<T, A, VT>(self@, prev@, states, pods, cx, common);
        lemma_count_upto_grows::<T, A, VT>(prev@, states, common, m);
        lemma_size_upto_grows::<T, A, VT>(self@, common, n);
        assert(identified_upto::<T, A, VT>(prev@, states, cx.next_id, common));
        lemma_rebuild_upto::<T, A, VT>(self@, prev@, states, pods, cx, common);
        lemma_rebuild_upto_identified::<T, A, VT>(self@, prev@, states, pods, cx, common);
        let out = self.seq_rebuild_spec(prev, state, pods, cx);
        let all = out.state->List_0;
        if n > m {
            let added = build_upto::<T, A, VT>(self@, kept.cx, m, n);
            lemma_build_upto::<T, A, VT>(self@, kept.cx, m, n, kept.states);
            lemma_build_upto_identified::<T, A, VT>(self@, kept.cx, m, n, kept.states);
            assert forall|j: int| 0 <= j < m implies all[j] == kept.states[j] by {}
            assert forall|j: int| 0 <= j < n implies #[trigger] identified_at::<T, A, VT>(
                self@,
                all,
                out.cx.next_id,
                j,
            ) by {
                if j < m {
                    assert(identified_at::<T, A, VT>(self@, kept.states, kept.cx.next_id, j));
                    self@[j].lemma_seq_identified_grows(
                        kept.states[j],
                        kept.cx.next_id,
                        out.cx.next_id,
                    );
                }
            }
            assert forall|j: int, k: int, id: Id|
                0 <= j < k < n && #[trigger] ids_at::<T, A, VT>(self@, all, j).contains(
                    id,
                ) implies !#[trigger] ids_at::<T, A, VT>(self@, all, k).contains(id) by {
                if j < m {
                    assert(ids_at::<T, A, VT>(self@, kept.states, j).contains(id));
                    assert(identified_at::<T, A, VT>(self@, kept.states, kept.cx.next_id, j));
                    self@[j].lemma_seq_ids_bounded(kept.states[j], kept.cx.next_id);
                    if k < m {
                        if ids_at::<T, A, VT>(self@, all, k).contains(id) {
                            assert(ids_at::<T, A, VT>(self@, kept.states, k).contains(id));
                        }
                    }
                }
            }
            assert forall|id: Id| #[trigger] self.seq_ids(out.state).contains(id) implies prev.seq_ids(
                state,
            ).contains(id) || cx.next_id <= id.0 by {
                let j = choose|j: int|
                    0 <= j < n && #[trigger] ids_at::<T, A, VT>(self@, all, j).contains(id);
                if j < m {
                    assert(ids_at::<T, A, VT>(self@, kept.states, j).contains(id));
                    if ids_at::<T, A, VT>(prev@, states, j).contains(id) {
                        assert(prev.seq_ids(state).contains(id));
                    }
                }
            }
        } else {
            assert(all == kept.states);
            assert forall|id: Id| #[trigger] self.seq_ids(out.state).contains(id) implies prev.seq_ids(
                state,
            ).contains(id) || cx.next_id <= id.0 by {
                let j = choose|j: int|
                    0 <= j < n && #[trigger] ids_at::<T, A, VT>(self@, all, j).contains(id);
                if ids_at::<T, A, VT>(prev@, states, j).contains(id) {
                    assert(prev.seq_ids(state).contains(id));
                }
            }
        }
    }

    proof fn lemma_seq_message_stale(
        &self,
        id_path: Seq<Id>,
        state: StateModel,
        message: MessageView,
        app_state: T,
    ) {
        let states = state->List_0;
        if id_path.len() > 0 {
            assert forall|j: int| 0 <= j < self@.len() implies !#[trigger] ids_at::<T, A, VT>(
                self@,
                states,
                j,
            ).contains(id_path[0]) by {
                if ids_at::<T, A, VT>(self@, states, j).contains(id_path[0]) {
                    assert(self.seq_ids(state).contains(id_path[0]));
                }
            }
        }
        lemma_message_upto_stale::<T, A, VT>(
            self@,
            id_path,
            states,
            message,
            app_state,
            self@.len(),
        );
    }

    proof fn lemma_seq_rebuild_same(&self, state: StateModel, pods: Seq<Pod>, cx: CxView) {
        let n = self@.len();
        lemma_rebuild_upto_same::<T, A, VT>(self@, state->List_0, pods, cx, n);
        assert(state->List_0.take(n as int) =~= state->List_0);
        assert(pods.take(pods.len() as int) =~= pods);
    }
}

/// Members that did not change are left alone: where each member of the new
/// list that has a member of the old list in its place equals that member,
/// a rebuild keeps their states and live nodes as they are and records
/// nothing for them. Members past the old end are built after them, and the
/// live nodes of members past the new end are dropped; either way the shape
/// is said to have changed.
pub proof fn lemma_unchanged_members_are_kept<T, A, VT: ViewSequence<T, A>>(
    views: &Vec<VT>,
    prev: &Vec<VT>,
    state: StateModel,
    pods: Seq<Pod>,
    cx: CxView,
)
    requires
        prev.seq_live(state),
        pods.len() == prev.count_spec(state),
        forall|j: int| 0 <= j < views@.len() && j < prev@.len() ==> views@[j] == prev@[j],
    ensures
        ({
            let out = views.seq_rebuild_spec(prev, state, pods, cx);
            let states = state->List_0;
            let n = views@.len();
            let m = prev@.len();
            let added = build_upto::<T, A, VT>(views@, cx, m, n);
            &&& n == m ==> out == (Rebuilt { state, pods, cx, flags: ChangeFlags::empty() })
            &&& n < m ==> out == (Rebuilt {
                state: StateModel::List(states.take(n as int)),
                pods: pods.take(count_upto::<T, A, VT>(prev@, states, n) as int),
                cx,
                flags: ChangeFlags::structure(),
            })
            &&& n > m ==> out == (Rebuilt {
                state: StateModel::List(states + added.states),
                pods: pods + added.pods,
                cx: added.cx,
                flags: ChangeFlags::structure(),
            })
        }),
{
    let states = state->List_0;
    let n = views@.len();
    let m = prev@.len();
    let common = if n < m {
        n
    } else {
        m
    };
    lemma_count_upto_grows::<T, A, VT>(prev@, states, common, m);
    lemma_rebuild_upto_looks_at::<T, A, VT>(views@, prev@, prev@, states, pods, cx, common);
    lemma_rebuild_upto_same::<T, A, VT>(prev@, states, pods, cx, common);
    ChangeFlags::lemma_union_unit(ChangeFlags::structure());
    if n >= m {
        assert(states.take(m as int) =~= states);
        assert(pods.take(pods.len() as int) =~= pods);
    }
}

/// A changed member is rebuilt in its place: where the new list is as long
/// as the old one and differs from it in place `k` only, a rebuild leaves
/// the other members' states and live nodes as they are, in their order,
/// records what the rebuild of that one member records, and says that what
/// changed is what changed in that member.
pub proof fn lemma_changed_member_is_rebuilt_in_place<T, A, VT: ViewSequence<T, A>>(
    views: &Vec<VT>,
    prev: &Vec<VT>,
    state: StateModel,
    pods: Seq<Pod>,
    cx: CxView,
    k: int,
)
    requires
        prev.seq_live(state),
        pods.len() == prev.count_spec(state),
        views@.len() == prev@.len(),
        0 <= k < views@.len(),
        forall|j: int| 0 <= j < views@.len() && j != k ==> views@[j] == prev@[j],
    ensures
        ({
            let states = state->List_0;
            let from = count_upto::<T, A, VT>(prev@, states, k as nat);
            let own = prev@[k].count_spec(states[k]);
            let one = views@[k].seq_rebuild_spec(
                &prev@[k],
                states[k],
                pods.subrange(from as int, (from + own) as int),
                cx,
            );
            views.seq_rebuild_spec(prev, state, pods, cx) == (Rebuilt {
                state: StateModel::List(states.update(k, one.state)),
                pods: pods.take(from as int) + one.pods + pods.skip((from + own) as int),
                cx: one.cx,
                flags: one.flags,
            })
        }),
{
    let states = state->List_0;
    lemma_rebuild_upto_one_changed::<T, A, VT>(views@, prev@, states, pods, cx, k, views@.len());
    assert(states.take(states.len() as int) =~= states);
    let from = count_upto::<T, A, VT>(prev@, states, k as nat);
    let own = prev@[k].count_spec(states[k]);
    assert(pods.subrange((from + own) as int, pods.len() as int) =~= pods.skip(
        (from + own) as int,
    ));
}

/// A message reaches one member at most: where its path begins with an
/// identity that the member in place `i` holds, the list answers what that
/// member alone makes of the message, and no other member's state changes.
pub proof fn lemma_message_reaches_one_member<T, A, VT: ViewSequence<T, A>>(
    views: &Vec<VT>,
    state: StateModel,
    bound: nat,
    i: int,
    id_path: Seq<Id>,
    message: MessageView,
    app_state: T,
)
    requires
        views.seq_live(state),
        views.seq_identified(state, bound),
        0 <= i < views@.len(),
        id_path.len() > 0,
        ids_at::<T, A, VT>(views@, state->List_0, i).contains(id_path[0]),
    ensures
        ({
            let states = state->List_0;
            let own = views@[i].seq_message_spec(id_path, states[i], message, app_state);
            views.seq_message_spec(id_path, state, message, app_state) == (Delivered::<T, A> {
                result: own.result,
                state: StateModel::List(states.update(i, own.state)),
                app_state: own.app_state,
            })
        }),
{
    lemma_message_upto_reaches::<T, A, VT>(
        views@,
        id_path,
        state->List_0,
        bound,
        message,
        app_state,
        i,
        views@.len(),
    );
}

/// A message for a member that is gone is stale: where a rebuild takes a
/// list to a shorter one, a path that begins with an identity of a member
/// past the new end leads nowhere afterwards, and the delivery changes
/// neither the state nor the application's state.
pub proof fn lemma_removed_member_is_stale<T, A, VT: ViewSequence<T, A>>(
    views: &Vec<VT>,
    prev: &Vec<VT>,
    state: StateModel,
    pods: Seq<Pod>,
    cx: CxView,
    i: int,
    id_path: Seq<Id>,
    message: MessageView,
    app_state: T,
)
    requires
        prev.seq_live(state),
        pods.len() == prev.count_spec(state),
        prev.seq_identified(state, cx.next_id),
        cx.has_room(views.seq_size()),
        views@.len() <= i < prev@.len(),
        id_path.len() > 0,
        ids_at::<T, A, VT>(prev@, state->List_0, i).contains(id_path[0]),
    ensures
        ({
            let after = views.seq_rebuild_spec(prev, state, pods, cx).state;
            views.seq_message_spec(id_path, after, message, app_state) == (Delivered::<T, A> {
                result: MessageResult::Stale,
                state: after,
                app_state,
            })
        }),
{
    let n = views@.len();
    let m = prev@.len();
    let states = state->List_0;
    let kept = rebuild_upto::<T, A, VT>(views@, prev@, states, pods, cx, n);
    lemma_count_upto_grows::<T, A, VT>(prev@, states, n, m);
    lemma_rebuild_upto::<T, A, VT>(views@, prev@, states, pods, cx, n);
    lemma_rebuild_upto_identified::<T, A, VT>(views@, prev@, states, pods, cx, n);
    assert(identified_at::<T, A, VT>(prev@, states, cx.next_id, i));
    prev@[i].lemma_seq_ids_bounded(states[i], cx.next_id);
    assert forall|j: int| 0 <= j < n implies !#[trigger] ids_at::<T, A, VT>(
        views@,
        kept.states,
        j,
    ).contains(id_path[0]) by {
        if ids_at::<T, A, VT>(views@, kept.states, j).contains(id_path[0]) {
            if ids_at::<T, A, VT>(prev@, states, j).contains(id_path[0]) {
                assert(!ids_at::<T, A, VT>(prev@, states, i).contains(id_path[0]));
            }
        }
    }
    lemma_message_upto_stale::<T, A, VT>(views@, id_path, kept.states, message, app_state, n);
}

} // verus!
