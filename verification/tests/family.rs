use xilem_html::MessageResult;
use xilem_html::{
    can_build, custom_element, div, element, math, on_event, svg, ChangeFlags, Cx, Div, DivTag, Id,
    Message, Mutation, NodeId, Pod, Tag, MathTag, SvgTag, ViewNode, ViewSequence,
    HTML_NS, MATHML_NS, SVG_NS,
};

fn text(s: &str) -> String {
    s.to_string()
}

fn made(node: u64, namespace: &str, name: &str) -> Mutation {
    Mutation::CreateElement { node: NodeId(node), namespace: text(namespace), name: text(name) }
}

#[test]
fn each_kind_of_element_is_made_in_its_namespace() {
    assert_eq!(HTML_NS, "http://www.w3.org/1999/xhtml");
    assert_eq!(SVG_NS, "http://www.w3.org/2000/svg");
    assert_eq!(MATHML_NS, "http://www.w3.org/1998/Math/MathML");
    assert_eq!(DivTag::name(), "div");
    assert_eq!(DivTag::namespace(), HTML_NS);
    assert_eq!(SvgTag::name(), "svg");
    assert_eq!(SvgTag::namespace(), SVG_NS);
    assert_eq!(MathTag::name(), "math");
    assert_eq!(MathTag::namespace(), MATHML_NS);
    let mut cx = Cx::new();
    let _ = div::<(), u32, ()>(()).build(&mut cx);
    let _ = svg::<(), u32, ()>(()).build(&mut cx);
    let _ = math::<(), u32, ()>(()).build(&mut cx);
    let _ = element::<DivTag, (), u32, ()>(()).build(&mut cx);
    assert_eq!(
        cx.take_mutations(),
        vec![
            made(0, HTML_NS, "div"),
            made(1, SVG_NS, "svg"),
            made(2, MATHML_NS, "math"),
            made(3, HTML_NS, "div"),
        ]
    );
}

#[test]
fn an_element_of_a_fixed_kind_keeps_its_live_node() {
    let mut cx = Cx::new();
    let old: Div<(), u32, _> = div(vec![text("a")]).attr("class", "x");
    let (mut id, mut state, mut element) = old.build(&mut cx);
    assert_eq!(
        cx.take_mutations(),
        vec![
            made(0, HTML_NS, "div"),
            Mutation::SetAttribute { node: NodeId(0), name: text("class"), value: text("x") },
            Mutation::CreateText { node: NodeId(1), content: text("a") },
            Mutation::AppendChild { parent: NodeId(0), child: NodeId(1) },
        ]
    );
    let new: Div<(), u32, _> = div(vec![text("b"), text("c")]).attr("class", "x");
    let flags = new.rebuild(&mut cx, &old, &mut id, &mut state, &mut element);
    assert_eq!(flags, ChangeFlags::other_change());
    assert_eq!(id, Id(0));
    assert_eq!(element, Pod { node: NodeId(0) });
    assert_eq!(state.child_elements, vec![Pod::new(NodeId(1)), Pod::new(NodeId(2))]);
    assert_eq!(
        cx.take_mutations(),
        vec![
            Mutation::SetText { node: NodeId(1), content: text("b") },
            Mutation::CreateText { node: NodeId(2), content: text("c") },
            Mutation::ClearChildren { node: NodeId(0) },
            Mutation::AppendChild { parent: NodeId(0), child: NodeId(1) },
            Mutation::AppendChild { parent: NodeId(0), child: NodeId(2) },
        ]
    );
    let again = new.rebuild(&mut cx, &new, &mut id, &mut state, &mut element);
    assert!(again.is_empty());
    assert!(cx.take_mutations().is_empty());
}

#[test]
fn room_is_counted_before_anything_is_built() {
    let view = custom_element::<(), u32, _>("ul", (vec![text("a"), text("b")], ()));
    assert_eq!(view.room_after(5), Some(2));
    assert_eq!(view.room_after(3), Some(0));
    assert_eq!(view.room_after(2), None);
    assert_eq!(view.room_after(0), None);
    let listening = on_event::<(), u32, _>(div(()), "click", 1);
    assert_eq!(listening.room_after(2), Some(0));
    assert_eq!(listening.room_after(1), None);
    assert_eq!(ViewNode::<(), u32>::room_after(&text("a"), 1), Some(0));
    assert_eq!(ViewNode::<(), u32>::room_after(&text("a"), 0), None);
    assert_eq!(ViewSequence::<(), u32>::seq_room_after(&(), 0), Some(0));
    assert_eq!(ViewSequence::<(), u32>::seq_room_after(&vec![text("a"), text("b")], 1), None);
    let cx = Cx::new();
    assert!(can_build(&view, &cx));
    assert!(cx.has_room(u64::MAX));
    let mut used = Cx::new();
    let _ = used.push_new_id();
    assert!(!used.has_room(u64::MAX));
    assert!(used.has_room(u64::MAX - 1));
}

#[test]
fn a_list_counts_the_live_nodes_of_its_members() {
    let mut cx = Cx::new();
    let views = (vec![text("a"), text("b")], (text("c"), ()));
    let mut elements = Vec::new();
    let state = ViewSequence::<(), u32>::seq_build(&views, &mut cx, &mut elements);
    assert_eq!(elements, vec![Pod::new(NodeId(0)), Pod::new(NodeId(1)), Pod::new(NodeId(2))]);
    assert_eq!(ViewSequence::<(), u32>::count(&views, &state), 3);
    assert_eq!(ViewSequence::<(), u32>::count(&views.0, &state.0), 2);
    assert_eq!(ViewSequence::<(), u32>::count(&(), &()), 0);
    assert_eq!((state.0[0].1, state.0[1].1, (state.1).0.1), (Id(0), Id(1), Id(2)));
}

#[test]
fn a_message_is_handed_down_one_identity_at_a_time() {
    let mut cx = Cx::new();
    let view = div::<(), u32, _>(custom_element("ul", vec![on_event(div(()), "click", 7)]));
    let (_, mut state, _) = view.build(&mut cx);
    let heard: Vec<Mutation> = cx
        .take_mutations()
        .into_iter()
        .filter(|m| matches!(m, Mutation::Listen { .. }))
        .collect();
    assert_eq!(
        heard,
        vec![Mutation::Listen {
            node: NodeId(2),
            event: text("click"),
            id_path: vec![Id(0), Id(1), Id(2)],
        }]
    );
    let click = Message { name: text("click"), detail: String::new() };
    let mut app = ();
    assert!(matches!(view.message(&[Id(1), Id(2)], &mut state, &click, &mut app), MessageResult::Action(7)));
    assert!(matches!(view.message(&[Id(2)], &mut state, &click, &mut app), MessageResult::Stale));
    assert!(matches!(view.message(&[Id(1)], &mut state, &click, &mut app), MessageResult::Stale));
    assert!(matches!(view.message(&[Id(1), Id(3)], &mut state, &click, &mut app), MessageResult::Stale));
    assert!(matches!(
        view.message(&[Id(1), Id(2), Id(3)], &mut state, &click, &mut app), MessageResult::Stale));
}
