use xilem_html::MessageResult;
use xilem_html::{
    custom_element, on_event, ChangeFlags, CustomElement, Cx, Id, Message, Mutation,
    NodeId, OnEvent, Pod, ViewNode, HTML_NS,
};

type Item = OnEvent<(), u32, CustomElement<(), u32, ()>>;

fn text(s: &str) -> String {
    s.to_string()
}

fn list(items: &[&str]) -> CustomElement<(), u32, Vec<String>> {
    custom_element("ul", items.iter().map(|s| s.to_string()).collect())
}

fn pods(nodes: &[u64]) -> Vec<Pod> {
    nodes.iter().map(|n| Pod { node: NodeId(*n) }).collect()
}

fn create_element(node: u64, name: &str) -> Mutation {
    Mutation::CreateElement { node: NodeId(node), namespace: HTML_NS.to_string(), name: text(name) }
}

fn create_text(node: u64, content: &str) -> Mutation {
    Mutation::CreateText { node: NodeId(node), content: text(content) }
}

fn append(parent: u64, child: u64) -> Mutation {
    Mutation::AppendChild { parent: NodeId(parent), child: NodeId(child) }
}

fn set_attribute(node: u64, name: &str, value: &str) -> Mutation {
    Mutation::SetAttribute { node: NodeId(node), name: text(name), value: text(value) }
}

fn click() -> Message {
    Message { name: text("click"), detail: String::new() }
}

fn item(action: u32) -> Item {
    on_event(custom_element("li", ()), "click", action)
}

#[test]
fn build_records_the_element_then_its_children_in_order() {
    let mut cx = Cx::new();
    let view = list(&["a", "b", "c"]);
    let (id, state, element) = view.build(&mut cx);
    assert_eq!(id, Id(0));
    assert_eq!(element, Pod { node: NodeId(0) });
    assert_eq!(state.child_elements, pods(&[1, 2, 3]));
    assert!(state.scratch.is_empty());
    assert_eq!(state.attributes.len(), 0);
    assert_eq!(
        cx.take_mutations(),
        vec![
            create_element(0, "ul"),
            create_text(1, "a"),
            create_text(2, "b"),
            create_text(3, "c"),
            append(0, 1),
            append(0, 2),
            append(0, 3),
        ]
    );
    assert!(cx.id_path().is_empty());
    assert!(cx.take_mutations().is_empty());
}

#[test]
fn rebuild_against_itself_changes_nothing() {
    let mut cx = Cx::new();
    let view = list(&["a", "b"]).attr("class", "x");
    let (mut id, mut state, mut element) = view.build(&mut cx);
    let _ = cx.take_mutations();
    let room = cx.room();
    let flags = view.rebuild(&mut cx, &view, &mut id, &mut state, &mut element);
    assert!(flags.is_empty());
    assert_eq!(flags, ChangeFlags::empty());
    assert_eq!(id, Id(0));
    assert_eq!(element, Pod { node: NodeId(0) });
    assert_eq!(state.child_elements, pods(&[1, 2]));
    assert_eq!(state.attributes.len(), 1);
    assert!(cx.take_mutations().is_empty());
    assert_eq!(cx.room(), room);
    assert!(cx.id_path().is_empty());
}

#[test]
fn a_changed_member_is_rebuilt_in_its_place() {
    let mut cx = Cx::new();
    let old = list(&["a", "b", "c"]);
    let (mut id, mut state, mut element) = old.build(&mut cx);
    let _ = cx.take_mutations();
    let new = list(&["a", "x", "c"]);
    let flags = new.rebuild(&mut cx, &old, &mut id, &mut state, &mut element);
    assert_eq!(flags, ChangeFlags::other_change());
    assert!(!flags.contains(ChangeFlags::structure()));
    assert_eq!(state.child_elements, pods(&[1, 2, 3]));
    assert_eq!(
        cx.take_mutations(),
        vec![Mutation::SetText { node: NodeId(2), content: text("x") }]
    );
}

#[test]
fn a_member_past_the_old_end_is_built_and_the_rest_is_kept() {
    let mut cx = Cx::new();
    let old = list(&["a", "b"]);
    let (mut id, mut state, mut element) = old.build(&mut cx);
    let _ = cx.take_mutations();
    let new = list(&["a", "b", "c"]);
    let flags = new.rebuild(&mut cx, &old, &mut id, &mut state, &mut element);
    assert_eq!(state.child_elements, pods(&[1, 2, 3]));
    assert_eq!(state.children_states.len(), 3);
    assert_eq!(state.children_states[2].1, Id(3));
    assert!(!flags.contains(ChangeFlags::structure()));
    assert_eq!(
        cx.take_mutations(),
        vec![
            create_text(3, "c"),
            Mutation::ClearChildren { node: NodeId(0) },
            append(0, 1),
            append(0, 2),
            append(0, 3),
        ]
    );
}

#[test]
fn a_member_past_the_new_end_is_dropped_and_the_rest_is_kept() {
    let mut cx = Cx::new();
    let old = list(&["a", "b", "c"]);
    let (mut id, mut state, mut element) = old.build(&mut cx);
    let _ = cx.take_mutations();
    let new = list(&["a", "b"]);
    let flags = new.rebuild(&mut cx, &old, &mut id, &mut state, &mut element);
    assert_eq!(state.child_elements, pods(&[1, 2]));
    assert_eq!(state.children_states.len(), 2);
    assert_eq!(state.children_states[0].1, Id(1));
    assert_eq!(state.children_states[1].1, Id(2));
    assert!(state.scratch.is_empty());
    assert!(flags.is_empty());
    assert_eq!(
        cx.take_mutations(),
        vec![Mutation::ClearChildren { node: NodeId(0) }, append(0, 1), append(0, 2)]
    );
}

#[test]
fn a_list_that_loses_all_members_is_cleared() {
    let mut cx = Cx::new();
    let old = list(&["a", "b"]);
    let (mut id, mut state, mut element) = old.build(&mut cx);
    let _ = cx.take_mutations();
    let new = list(&[]);
    let flags = new.rebuild(&mut cx, &old, &mut id, &mut state, &mut element);
    assert!(flags.is_empty());
    assert!(state.child_elements.is_empty());
    assert!(state.children_states.is_empty());
    assert_eq!(cx.take_mutations(), vec![Mutation::ClearChildren { node: NodeId(0) }]);
}

#[test]
fn attributes_are_changed_and_added_in_one_pass() {
    let mut cx = Cx::new();
    let old = custom_element::<(), u32, ()>("div", ()).attr("class", "x");
    let (mut id, mut state, mut element) = old.build(&mut cx);
    assert_eq!(
        cx.take_mutations(),
        vec![create_element(0, "div"), set_attribute(0, "class", "x")]
    );
    let new = custom_element::<(), u32, ()>("div", ()).attr("class", "y").attr("id", "z");
    let flags = new.rebuild(&mut cx, &old, &mut id, &mut state, &mut element);
    assert_eq!(flags, ChangeFlags::other_change());
    assert_eq!(state.attributes.len(), 2);
    assert_eq!(state.attributes.name_at(0), "class");
    assert_eq!(state.attributes.value_at(0), "y");
    assert_eq!(state.attributes.name_at(1), "id");
    assert_eq!(state.attributes.value_at(1), "z");
    assert_eq!(state.attributes.get(&text("class")), Some(&text("y")));
    assert_eq!(state.attributes.get(&text("id")), Some(&text("z")));
    assert_eq!(state.attributes.get(&text("title")), None);
    assert_eq!(
        cx.take_mutations(),
        vec![set_attribute(0, "class", "y"), set_attribute(0, "id", "z")]
    );
}

#[test]
fn an_attribute_that_is_no_longer_declared_is_removed() {
    let mut cx = Cx::new();
    let old = custom_element::<(), u32, ()>("div", ()).attr("class", "x").attr("id", "z");
    let (mut id, mut state, mut element) = old.build(&mut cx);
    let _ = cx.take_mutations();
    let new = custom_element::<(), u32, ()>("div", ()).attr("id", "z");
    let flags = new.rebuild(&mut cx, &old, &mut id, &mut state, &mut element);
    assert_eq!(flags, ChangeFlags::other_change());
    assert_eq!(state.attributes.len(), 1);
    assert_eq!(state.attributes.name_at(0), "id");
    assert_eq!(
        cx.take_mutations(),
        vec![Mutation::RemoveAttribute { node: NodeId(0), name: text("class") }]
    );
}

#[test]
fn the_last_declaration_of_an_attribute_counts() {
    let mut cx = Cx::new();
    let view = custom_element::<(), u32, ()>("div", ())
        .attr("class", "x")
        .attr("id", "z")
        .attr("class", "y");
    let (_, state, _) = view.build(&mut cx);
    assert_eq!(state.attributes.len(), 2);
    assert_eq!(state.attributes.name_at(0), "class");
    assert_eq!(state.attributes.value_at(0), "y");
    assert_eq!(state.attributes.name_at(1), "id");
    assert_eq!(
        cx.take_mutations(),
        vec![
            create_element(0, "div"),
            set_attribute(0, "class", "y"),
            set_attribute(0, "id", "z"),
        ]
    );
}

#[test]
fn a_change_of_shape_is_put_right_by_the_nearest_element() {
    let mut cx = Cx::new();
    let old = custom_element::<(), u32, _>("div", list(&["a"]));
    let (mut id, mut state, mut element) = old.build(&mut cx);
    assert_eq!(element, Pod { node: NodeId(0) });
    assert_eq!(state.child_elements, pods(&[1]));
    let _ = cx.take_mutations();
    let new = custom_element::<(), u32, _>("div", list(&["a", "b"]));
    let flags = new.rebuild(&mut cx, &old, &mut id, &mut state, &mut element);
    assert!(!flags.contains(ChangeFlags::structure()));
    assert!(flags.is_empty());
    assert_eq!(state.child_elements, pods(&[1]));
    assert_eq!(state.children_states.0.child_elements, pods(&[2, 3]));
    assert_eq!(
        cx.take_mutations(),
        vec![
            create_text(3, "b"),
            Mutation::ClearChildren { node: NodeId(1) },
            append(1, 2),
            append(1, 3),
        ]
    );
}

#[test]
fn a_new_tag_replaces_the_live_node_and_keeps_the_children() {
    let mut cx = Cx::new();
    let old = custom_element::<(), u32, _>("ul", vec![text("a"), text("b")]).attr("class", "x");
    let (mut id, mut state, mut element) = old.build(&mut cx);
    let _ = cx.take_mutations();
    let new = custom_element::<(), u32, _>("ol", vec![text("a"), text("b")]).attr("class", "x");
    let flags = new.rebuild(&mut cx, &old, &mut id, &mut state, &mut element);
    assert_eq!(id, Id(0));
    assert_eq!(element, Pod { node: NodeId(3) });
    assert_eq!(state.child_elements, pods(&[1, 2]));
    assert_eq!(flags, ChangeFlags::other_change());
    assert_eq!(
        cx.take_mutations(),
        vec![
            Mutation::RemoveFromParent { node: NodeId(0) },
            create_element(3, "ol"),
            append(3, 1),
            append(3, 2),
            set_attribute(3, "class", "x"),
            Mutation::ClearChildren { node: NodeId(3) },
            append(3, 1),
            append(3, 2),
        ]
    );
}

#[test]
fn built_nodes_are_marked_with_their_identity_when_asked() {
    let mut cx = Cx::new();
    cx.set_debug_ids(true);
    assert!(cx.debug_ids());
    let view = custom_element::<(), u32, _>("p", vec![text("a")]);
    let _ = view.build(&mut cx);
    assert_eq!(
        cx.take_mutations(),
        vec![
            create_element(0, "p"),
            create_text(1, "a"),
            append(0, 1),
            Mutation::SetDebugId { node: NodeId(0), id: Id(0) },
        ]
    );
}

#[test]
fn a_message_finds_the_view_it_is_meant_for() {
    let mut cx = Cx::new();
    let view = custom_element::<(), u32, _>("ul", vec![item(7), item(8)]);
    let (_, mut state, _) = view.build(&mut cx);
    assert_eq!(
        cx.take_mutations(),
        vec![
            create_element(0, "ul"),
            create_element(1, "li"),
            Mutation::Listen { node: NodeId(1), event: text("click"), id_path: vec![Id(0), Id(1)] },
            create_element(2, "li"),
            Mutation::Listen { node: NodeId(2), event: text("click"), id_path: vec![Id(0), Id(3)] },
            append(0, 1),
            append(0, 2),
        ]
    );
    let mut app = ();
    assert!(matches!(view.message(&[Id(1)], &mut state, &click(), &mut app), MessageResult::Action(7)));
    assert!(matches!(view.message(&[Id(3)], &mut state, &click(), &mut app), MessageResult::Action(8)));
    let other = Message { name: text("input"), detail: text("x") };
    assert!(matches!(view.message(&[Id(3)], &mut state, &other, &mut app), MessageResult::Stale));
    assert!(matches!(view.message(&[], &mut state, &click(), &mut app), MessageResult::Stale));
    assert!(matches!(view.message(&[Id(9)], &mut state, &click(), &mut app), MessageResult::Stale));
    assert!(matches!(view.message(&[Id(3), Id(4)], &mut state, &click(), &mut app), MessageResult::Stale));
}

#[test]
fn a_message_for_a_view_that_was_removed_is_stale() {
    let mut cx = Cx::new();
    let old = custom_element::<(), u32, _>("ul", vec![item(7), item(8)]);
    let (mut id, mut state, mut element) = old.build(&mut cx);
    let mut app = ();
    assert!(matches!(old.message(&[Id(3)], &mut state, &click(), &mut app), MessageResult::Action(8)));
    let new = custom_element::<(), u32, _>("ul", vec![item(7)]);
    let _ = new.rebuild(&mut cx, &old, &mut id, &mut state, &mut element);
    assert!(matches!(new.message(&[Id(3)], &mut state, &click(), &mut app), MessageResult::Stale));
    assert!(matches!(new.message(&[Id(1)], &mut state, &click(), &mut app), MessageResult::Action(7)));
}

#[test]
fn listening_starts_anew_when_the_name_changes() {
    let mut cx = Cx::new();
    let old: Item = item(7);
    let (mut id, mut state, mut element) = old.build(&mut cx);
    assert_eq!(id, Id(0));
    assert_eq!(state.child_id, Id(1));
    let _ = cx.take_mutations();
    let same = old.rebuild(&mut cx, &old, &mut id, &mut state, &mut element);
    assert!(same.is_empty());
    assert!(cx.take_mutations().is_empty());
    let new: Item = on_event(custom_element("li", ()), "input", 7);
    let flags = new.rebuild(&mut cx, &old, &mut id, &mut state, &mut element);
    assert_eq!(flags, ChangeFlags::other_change());
    assert_eq!(
        cx.take_mutations(),
        vec![Mutation::Listen { node: NodeId(0), event: text("input"), id_path: vec![Id(0)] }]
    );
}

#[test]
fn two_lists_in_a_row_are_each_compared_with_their_own_past() {
    let mut cx = Cx::new();
    let old = custom_element::<(), u32, _>("div", (vec![text("a"), text("b")], vec![text("c")]));
    let (mut id, mut state, mut element) = old.build(&mut cx);
    assert_eq!(state.child_elements, pods(&[1, 2, 3]));
    let _ = cx.take_mutations();
    let new = custom_element::<(), u32, _>("div", (vec![text("a")], vec![text("d")]));
    let flags = new.rebuild(&mut cx, &old, &mut id, &mut state, &mut element);
    assert_eq!(flags, ChangeFlags::other_change());
    assert_eq!(state.child_elements, pods(&[1, 3]));
    assert_eq!(
        cx.take_mutations(),
        vec![
            Mutation::SetText { node: NodeId(3), content: text("d") },
            Mutation::ClearChildren { node: NodeId(0) },
            append(0, 1),
            append(0, 3),
        ]
    );
}

#[test]
fn the_name_of_a_custom_element_is_the_one_it_was_given() {
    let view = custom_element::<(), u32, ()>("my-widget", ());
    assert_eq!(view.node_name(), "my-widget");
}

#[test]
fn listening_follows_the_live_node_when_it_is_replaced() {
    let mut cx = Cx::new();
    let old: Item = on_event(custom_element("my-a", ()), "click", 7);
    let (mut id, mut state, mut element) = old.build(&mut cx);
    assert_eq!(element, Pod { node: NodeId(0) });
    assert_eq!(
        cx.take_mutations(),
        vec![
            create_element(0, "my-a"),
            Mutation::Listen { node: NodeId(0), event: text("click"), id_path: vec![Id(0)] },
        ]
    );
    let new: Item = on_event(custom_element("my-b", ()), "click", 7);
    let flags = new.rebuild(&mut cx, &old, &mut id, &mut state, &mut element);
    assert_eq!(element, Pod { node: NodeId(1) });
    assert_eq!(flags, ChangeFlags::other_change());
    assert_eq!(
        cx.take_mutations(),
        vec![
            Mutation::RemoveFromParent { node: NodeId(0) },
            create_element(1, "my-b"),
            Mutation::ClearChildren { node: NodeId(1) },
            Mutation::Listen { node: NodeId(1), event: text("click"), id_path: vec![Id(0)] },
        ]
    );
    let mut app = ();
    assert_eq!(new.message(&[], &mut state, &click(), &mut app), MessageResult::Action(7));
}

#[test]
fn a_built_identity_is_no_segment_of_the_path() {
    let mut cx = Cx::new();
    let outer = cx.push_new_id();
    let _ = cx.push_new_id();
    cx.pop_id();
    cx.push_id(outer);
    assert_eq!(cx.id_path(), &vec![Id(0), Id(0)]);
    let view = list(&["a"]);
    let (id, state, _) = view.build(&mut cx);
    assert_eq!(id, Id(2));
    assert_eq!(state.children_states[0].1, Id(3));
    assert!(!cx.id_path().contains(&id));
    assert!(!cx.id_path().contains(&state.children_states[0].1));
    assert_eq!(cx.id_path(), &vec![Id(0), Id(0)]);
}
